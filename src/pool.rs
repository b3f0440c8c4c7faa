//! The lending pool: reserves, borrowing, staged repayment and liquidation.
use crate::codec::{decoded, DebtMetadata, MetadataView};
use crate::hashing::{keccak_digest, position_preimage, repay_preimage};
use crate::keyed::{bytes_eq, copy_bytes};
use crate::ledger::ReserveLedger;
use crate::math::{
    accrued_interest,
    borrow_rate,
    capital_utilisation,
    deposit_rate,
    deposit_rate_of,
    elapsed_between,
    interest_of,
    rate_of,
    utilisation_of,
    ReserveData,
    MAX_POOL_BALANCE,
    PRECISION,
    YEAR_SCALE,
};
use crate::positions::{
    DebtPosition,
    DebtPositionView,
    Registry,
    RepayPosition,
    RepayPositionView,
};
use vstd::prelude::*;

verus! {

/// Broad class of a refused operation.
#[derive(PartialEq, Eq, Structural, Debug, Clone, Copy)]
pub enum ErrorKind {
    Validation,
    NotFound,
    StateConflict,
    InsufficientFunds,
    Authorization,
}

/// Why an operation was refused; a refused operation changes nothing.
#[derive(PartialEq, Eq, Structural, Debug, Clone, Copy)]
pub enum PoolError {
    /// The caller is not the lending pool that orchestrates this one.
    Unauthorized,
    ZeroAmount,
    InvalidAddress,
    /// The token or asset sent is not the one this pool accepts here.
    UnsupportedToken,
    /// A receipt's metadata is not a well-formed record.
    MetadataDecode,
    /// The rate-curve parameters are out of range.
    InvalidCurve,
    /// The pool would grow past `MAX_POOL_BALANCE`, or its interest counter overflow.
    AmountTooLarge,
    UnknownDebtPosition,
    UnknownRepayPosition,
    AlreadyLiquidated,
    DuplicateStaging,
    /// A fresh position identifier is already taken.
    DuplicatePosition,
    /// Position nonces are used up.
    NonceExhausted,
    /// The position's health factor is not below the threshold.
    HealthFactorTooHigh,
    InsufficientReserve,
    InvalidLiquidationAmount,
    InvalidRepaymentAmount,
}

pub open spec fn kind_of(e: PoolError) -> ErrorKind {
    match e {
        PoolError::Unauthorized => ErrorKind::Authorization,
        PoolError::ZeroAmount | PoolError::InvalidAddress | PoolError::UnsupportedToken
        | PoolError::MetadataDecode | PoolError::InvalidCurve
        | PoolError::AmountTooLarge => ErrorKind::Validation,
        PoolError::UnknownDebtPosition | PoolError::UnknownRepayPosition => ErrorKind::NotFound,
        PoolError::AlreadyLiquidated | PoolError::DuplicateStaging | PoolError::DuplicatePosition
        | PoolError::NonceExhausted | PoolError::HealthFactorTooHigh => ErrorKind::StateConflict,
        PoolError::InsufficientReserve | PoolError::InvalidLiquidationAmount
        | PoolError::InvalidRepaymentAmount => ErrorKind::InsufficientFunds,
    }
}

impl PoolError {
    pub fn kind(&self) -> (r: ErrorKind)
        ensures
            r == kind_of(*self),
    {
        match self {
            PoolError::Unauthorized => ErrorKind::Authorization,
            PoolError::ZeroAmount | PoolError::InvalidAddress | PoolError::UnsupportedToken
            | PoolError::MetadataDecode | PoolError::InvalidCurve
            | PoolError::AmountTooLarge => ErrorKind::Validation,
            PoolError::UnknownDebtPosition
            | PoolError::UnknownRepayPosition => ErrorKind::NotFound,
            PoolError::AlreadyLiquidated | PoolError::DuplicateStaging
            | PoolError::DuplicatePosition | PoolError::NonceExhausted
            | PoolError::HealthFactorTooHigh => ErrorKind::StateConflict,
            PoolError::InsufficientReserve | PoolError::InvalidLiquidationAmount
            | PoolError::InvalidRepaymentAmount => ErrorKind::InsufficientFunds,
        }
    }
}

/// What a liquidator is owed for closing a position.
#[derive(Debug)]
pub struct LiquidateData {
    pub collateral_token: Vec<u8>,
    pub amount: u128,
}

/// An address made only of zero bytes.
pub open spec fn is_zero_address(a: Seq<u8>) -> bool {
    forall|i: int| 0 <= i < a.len() ==> a[i] == 0
}

pub fn address_is_zero(a: &[u8]) -> (r: bool)
    ensures
        r == is_zero_address(a@),
{
    let mut i: usize = 0;
    while i < a.len()
        invariant
            i <= a@.len(),
            forall|j: int| 0 <= j < i ==> a@[j] == 0,
        decreases a@.len() - i,
    {
        if a[i] != 0 {
            return false;
        }
        i = i + 1;
    }
    true
}

/// A lending pool for one primary asset.
pub struct LiquidityPool {
    pool_asset: Vec<u8>,
    borrow_token: Vec<u8>,
    lend_token: Vec<u8>,
    lending_pool: Vec<u8>,
    reserve_data: ReserveData,
    health_factor_threshold: u32,
    debt_nonce: u64,
    total_borrow: u128,
    earned_interest: u128,
    reserves: ReserveLedger,
    debt_positions: Registry<DebtPosition>,
    repay_positions: Registry<RepayPosition>,
    repay_ids_used: Registry<bool>,
    deposited: Ghost<int>,
    withdrawn: Ghost<int>,
}

impl LiquidityPool {
    pub closed spec fn pool_asset_spec(&self) -> Seq<u8> {
        self.pool_asset@
    }

    pub closed spec fn borrow_token_spec(&self) -> Seq<u8> {
        self.borrow_token@
    }

    pub closed spec fn lend_token_spec(&self) -> Seq<u8> {
        self.lend_token@
    }

    /// Address of the only actor allowed to stage, repay, withdraw, deposit and liquidate.
    pub closed spec fn lending_pool_spec(&self) -> Seq<u8> {
        self.lending_pool@
    }

    pub closed spec fn curve(&self) -> ReserveData {
        self.reserve_data
    }

    pub closed spec fn threshold(&self) -> u32 {
        self.health_factor_threshold
    }

    /// Nonce from which the next debt position's identifier is derived.
    pub closed spec fn nonce(&self) -> u64 {
        self.debt_nonce
    }

    /// Principal lent out and not yet paid back.
    pub closed spec fn total_borrowed(&self) -> u128 {
        self.total_borrow
    }

    /// Interest collected by full repayments.
    pub closed spec fn interest_earned(&self) -> u128 {
        self.earned_interest
    }

    /// Balance of `asset` in the reserve ledger.
    pub closed spec fn reserve_of(&self, asset: Seq<u8>) -> u128 {
        self.reserves.balance_of(asset)
    }

    pub closed spec fn debts(&self) -> Map<Seq<u8>, DebtPositionView> {
        self.debt_positions.map()
    }

    pub closed spec fn repays(&self) -> Map<Seq<u8>, RepayPositionView> {
        self.repay_positions.map()
    }

    /// Every repay-position identifier ever staged, whether still open or settled.
    pub closed spec fn used_repay_ids(&self) -> Set<Seq<u8>> {
        self.repay_ids_used.map().dom()
    }

    /// Everything ever deposited into the primary-asset reserve.
    pub closed spec fn deposited_total(&self) -> int {
        self.deposited@
    }

    /// Everything ever withdrawn from the primary-asset reserve.
    pub closed spec fn withdrawn_total(&self) -> int {
        self.withdrawn@
    }

    pub open spec fn pool_reserve(&self) -> u128 {
        self.reserve_of(self.pool_asset_spec())
    }

    pub open spec fn utilisation(&self) -> int {
        utilisation_of(self.total_borrowed() as int, self.pool_reserve() as int)
    }

    pub open spec fn current_rate(&self) -> int {
        rate_of(self.curve(), self.utilisation())
    }

    /// Interest owed at time `now` on `amount` borrowed at `timestamp`, at the current rate.
    pub open spec fn interest_at(&self, amount: u128, timestamp: u64, now: u64) -> int {
        interest_of(amount as int, elapsed_between(timestamp, now), self.current_rate())
    }

    /// The state invariant.
    pub closed spec fn wf(&self) -> bool {
        &&& self.reserves.wf()
        &&& self.debt_positions.wf()
        &&& self.repay_positions.wf()
        &&& self.repay_ids_used.wf()
        &&& self.reserve_data.wf()
        &&& self.pool_asset@ != self.borrow_token@
        &&& self.pool_reserve() + self.total_borrow <= MAX_POOL_BALANCE
        &&& self.reserve_of(self.borrow_token@) == self.total_borrow
        &&& self.pool_reserve() + self.total_borrow == self.deposited@ - self.withdrawn@
        &&& forall|k: Seq<u8>| #[trigger]
            self.debts().contains_key(k) ==> self.debts()[k].size <= MAX_POOL_BALANCE
        &&& forall|k: Seq<u8>| #[trigger]
            self.repays().contains_key(k) ==> {
                let p = self.repays()[k].position_id;
                &&& self.debts().contains_key(p)
                &&& 0 < self.repays()[k].amount <= self.debts()[p].size
                &&& self.used_repay_ids().contains(k)
            }
    }

    /// What an operation leaves alone in every case: the configuration, and each debt
    /// position, except that one may become liquidated.
    pub open spec fn keeps(&self, next: &LiquidityPool) -> bool {
        &&& next.pool_asset_spec() == self.pool_asset_spec()
        &&& next.borrow_token_spec() == self.borrow_token_spec()
        &&& next.lend_token_spec() == self.lend_token_spec()
        &&& next.lending_pool_spec() == self.lending_pool_spec()
        &&& next.curve() == self.curve()
        &&& next.threshold() == self.threshold()
        &&& self.used_repay_ids().subset_of(next.used_repay_ids())
        &&& forall|k: Seq<u8>| #[trigger]
            self.debts().contains_key(k) ==> next.debts().contains_key(k) && (
            self.debts()[k].is_liquidated ==> next.debts()[k].is_liquidated)
    }

    pub open spec fn init_error(rd: ReserveData, asset: Seq<u8>, borrow_token: Seq<u8>) -> Option<
        PoolError,
    > {
        if !rd.wf() {
            Some(PoolError::InvalidCurve)
        } else if asset == borrow_token {
            Some(PoolError::UnsupportedToken)
        } else {
            None
        }
    }

    /// A pool for `asset` that issues `borrow_token` receipts to borrowers, accepts
    /// `lend_token` for withdrawals and obeys `lending_pool`; its reserves are empty.
    pub fn init(
        asset: &[u8],
        borrow_token: &[u8],
        lend_token: &[u8],
        lending_pool: &[u8],
        reserve_data: ReserveData,
        health_factor_threshold: u32,
    ) -> (r: Result<LiquidityPool, PoolError>)
        ensures
            match r {
                Ok(p) => {
                    &&& Self::init_error(reserve_data, asset@, borrow_token@) is None
                    &&& p.wf()
                    &&& p.pool_asset_spec() == asset@
                    &&& p.borrow_token_spec() == borrow_token@
                    &&& p.lend_token_spec() == lend_token@
                    &&& p.lending_pool_spec() == lending_pool@
                    &&& p.curve() == reserve_data
                    &&& p.threshold() == health_factor_threshold
                    &&& p.nonce() == 1
                    &&& p.total_borrowed() == 0
                    &&& p.interest_earned() == 0
                    &&& forall|a: Seq<u8>| p.reserve_of(a) == 0
                    &&& p.debts() == Map::<Seq<u8>, DebtPositionView>::empty()
                    &&& p.repays() == Map::<Seq<u8>, RepayPositionView>::empty()
                    &&& p.used_repay_ids() == Set::<Seq<u8>>::empty()
                    &&& p.deposited_total() == 0
                    &&& p.withdrawn_total() == 0
                },
                Err(e) => Self::init_error(reserve_data, asset@, borrow_token@) == Some(e),
            },
    {
        if !reserve_data.is_valid() {
            return Err(PoolError::InvalidCurve);
        }
        if bytes_eq(asset, borrow_token) {
            return Err(PoolError::UnsupportedToken);
        }
        let p = LiquidityPool {
            pool_asset: copy_bytes(asset),
            borrow_token: copy_bytes(borrow_token),
            lend_token: copy_bytes(lend_token),
            lending_pool: copy_bytes(lending_pool),
            reserve_data,
            health_factor_threshold,
            debt_nonce: 1,
            total_borrow: 0,
            earned_interest: 0,
            reserves: ReserveLedger::new(),
            debt_positions: Registry::new(),
            repay_positions: Registry::new(),
            repay_ids_used: Registry::new(),
            deposited: Ghost(0),
            withdrawn: Ghost(0),
        };
        Ok(p)
    }

    // Views.

    /// Balance of the primary asset in reserve.
    pub fn get_reserve(&self) -> (r: u128)
        requires
            self.wf(),
        ensures
            r == self.pool_reserve(),
    {
        self.reserves.balance(self.pool_asset.as_slice())
    }

    /// Balance of any asset in the reserve ledger.
    pub fn reserve(&self, asset: &[u8]) -> (r: u128)
        requires
            self.wf(),
        ensures
            r == self.reserve_of(asset@),
    {
        self.reserves.balance(asset)
    }

    pub fn get_pool_asset(&self) -> (r: &Vec<u8>)
        ensures
            r@ == self.pool_asset_spec(),
    {
        &self.pool_asset
    }

    pub fn get_borrow_token(&self) -> (r: &Vec<u8>)
        ensures
            r@ == self.borrow_token_spec(),
    {
        &self.borrow_token
    }

    pub fn get_total_borrow(&self) -> (r: u128)
        ensures
            r == self.total_borrowed(),
    {
        self.total_borrow
    }

    pub fn get_earned_interest(&self) -> (r: u128)
        ensures
            r == self.interest_earned(),
    {
        self.earned_interest
    }

    /// The debt position `id`, if one was opened.
    pub fn debt_position(&self, id: &[u8]) -> (r: Option<&DebtPosition>)
        requires
            self.wf(),
        ensures
            match r {
                Some(d) => self.debts().contains_key(id@) && d@ == self.debts()[id@],
                None => !self.debts().contains_key(id@),
            },
    {
        match self.debt_positions.find(id) {
            Some(i) => Some(self.debt_positions.get(i)),
            None => None,
        }
    }

    /// The repay position `id`, if it is staged.
    pub fn repay_position(&self, id: &[u8]) -> (r: Option<&RepayPosition>)
        requires
            self.wf(),
        ensures
            match r {
                Some(d) => self.repays().contains_key(id@) && d@ == self.repays()[id@],
                None => !self.repays().contains_key(id@),
            },
    {
        match self.repay_positions.find(id) {
            Some(i) => Some(self.repay_positions.get(i)),
            None => None,
        }
    }

    /// Share of the pool lent out, in units of `PRECISION`.
    pub fn get_capital_utilisation(&self) -> (r: u128)
        requires
            self.wf(),
        ensures
            r == self.utilisation(),
            r <= PRECISION,
    {
        capital_utilisation(self.total_borrow, self.get_reserve())
    }

    /// The yearly borrow rate at the current utilisation.
    pub fn get_borrow_rate(&self) -> (r: u128)
        requires
            self.wf(),
        ensures
            r == self.current_rate(),
    {
        let u = self.get_capital_utilisation();
        borrow_rate(&self.reserve_data, u)
    }

    /// The yearly deposit rate at the current utilisation.
    pub fn get_deposit_rate(&self) -> (r: u128)
        requires
            self.wf(),
        ensures
            r == deposit_rate_of(
                self.utilisation(),
                self.current_rate(),
                self.curve().reserve_factor as int,
            ),
    {
        let u = self.get_capital_utilisation();
        let br = borrow_rate(&self.reserve_data, u);
        proof {
            self.lemma_rate_bound();
        }
        deposit_rate(u, br, self.reserve_data.reserve_factor)
    }

    proof fn lemma_rate_bound(&self)
        requires
            self.wf(),
        ensures
            0 <= self.current_rate() <= 3 * u64::MAX,
    {
        let rd = self.reserve_data;
        let u = self.utilisation();
        assert(0 <= u <= PRECISION) by (nonlinear_arith)
            requires
                u == utilisation_of(self.total_borrow as int, self.pool_reserve() as int),
                self.total_borrow >= 0,
                self.pool_reserve() >= 0,
        ;
        crate::math::lemma_rate_bounds(rd, u);
    }

    /// Accrued interest is a non-negative `u128` small enough to add to any amount the
    /// pool can hold.
    pub proof fn lemma_interest_bound(&self, amount: u128, timestamp: u64, now: u64)
        requires
            self.wf(),
        ensures
            0 <= self.interest_at(amount, timestamp, now) <= (u128::MAX as int) / (
            YEAR_SCALE as int),
    {
        self.lemma_rate_bound();
        let rate = self.current_rate();
        let elapsed = elapsed_between(timestamp, now);
        let n = crate::math::saturate(amount * rate * elapsed);
        assert(n >= 0) by (nonlinear_arith)
            requires
                n == crate::math::saturate(amount * rate * elapsed),
                amount >= 0,
                rate >= 0,
                elapsed >= 0,
        ;
        assert(0 <= n / (YEAR_SCALE as int) <= (u128::MAX as int) / (YEAR_SCALE as int))
            by (nonlinear_arith)
            requires
                0 <= n <= u128::MAX,
        ;
    }

    /// Interest owed now on `amount` borrowed at `timestamp`.
    pub fn get_debt_interest(&self, amount: u128, timestamp: u64, now: u64) -> (r: u128)
        requires
            self.wf(),
        ensures
            r == self.interest_at(amount, timestamp, now),
            r <= (u128::MAX as int) / (YEAR_SCALE as int),
    {
        let elapsed: u64 = if now >= timestamp {
            now - timestamp
        } else {
            0
        };
        let rate = self.get_borrow_rate();
        let r = accrued_interest(amount, elapsed, rate);
        proof {
            self.lemma_interest_bound(amount, timestamp, now);
        }
        r
    }
}


/// The position that `borrow` opens.
pub open spec fn opened_position(
    amount: u128,
    health_factor: u32,
    now: u64,
    collateral_id: Seq<u8>,
) -> DebtPositionView {
    DebtPositionView {
        size: amount,
        health_factor,
        is_liquidated: false,
        timestamp: now,
        collateral_amount: amount,
        collateral_identifier: collateral_id,
    }
}

/// The repay position that staging `amount` units of receipt `token` / `nonce` creates.
pub open spec fn staged_position(
    token: Seq<u8>,
    amount: u128,
    nonce: u64,
    m: MetadataView,
) -> RepayPositionView {
    RepayPositionView {
        identifier: token,
        amount,
        nonce,
        position_id: m.position_id,
        borrow_timestamp: m.timestamp,
        collateral_identifier: m.collateral_identifier,
        collateral_amount: m.collateral_amount,
        collateral_timestamp: m.collateral_timestamp,
    }
}

impl LiquidityPool {
    /// Only the primary-asset and borrow-token balances may differ.
    pub open spec fn other_reserves_kept(&self, next: &LiquidityPool) -> bool {
        forall|a: Seq<u8>|
            a != self.pool_asset_spec() && a != self.borrow_token_spec() ==> #[trigger] next.reserve_of(
                a,
            ) == self.reserve_of(a)
    }

    pub open spec fn deposit_error(&self, caller: Seq<u8>, asset: Seq<u8>, amount: u128) -> Option<
        PoolError,
    > {
        if caller != self.lending_pool_spec() {
            Some(PoolError::Unauthorized)
        } else if asset != self.pool_asset_spec() {
            Some(PoolError::UnsupportedToken)
        } else if amount == 0 {
            Some(PoolError::ZeroAmount)
        } else if self.pool_reserve() + self.total_borrowed() + amount > MAX_POOL_BALANCE {
            Some(PoolError::AmountTooLarge)
        } else {
            None
        }
    }

    /// Credits `amount` of the primary asset, supplied by a lender, to the reserve.
    pub fn deposit(&mut self, caller: &[u8], asset: &[u8], amount: u128) -> (r: Result<
        (),
        PoolError,
    >)
        requires
            old(self).wf(),
        ensures
            final(self).wf(),
            old(self).keeps(final(self)),
            match r {
                Ok(()) => {
                    &&& old(self).deposit_error(caller@, asset@, amount) is None
                    &&& final(self).pool_reserve() == old(self).pool_reserve() + amount
                    &&& final(self).deposited_total() == old(self).deposited_total() + amount
                    &&& final(self).withdrawn_total() == old(self).withdrawn_total()
                    &&& final(self).reserve_of(old(self).borrow_token_spec()) == old(self).reserve_of(
                        old(self).borrow_token_spec(),
                    )
                    &&& old(self).other_reserves_kept(final(self))
                    &&& final(self).nonce() == old(self).nonce()
                    &&& final(self).total_borrowed() == old(self).total_borrowed()
                    &&& final(self).interest_earned() == old(self).interest_earned()
                    &&& final(self).debts() == old(self).debts()
                    &&& final(self).repays() == old(self).repays()
                    &&& final(self).used_repay_ids() == old(self).used_repay_ids()
                },
                Err(e) => old(self).deposit_error(caller@, asset@, amount) == Some(e) && *final(self) == *old(self),
            },
    {
        if !bytes_eq(caller, self.lending_pool.as_slice()) {
            return Err(PoolError::Unauthorized);
        }
        if !bytes_eq(asset, self.pool_asset.as_slice()) {
            return Err(PoolError::UnsupportedToken);
        }
        if amount == 0 {
            return Err(PoolError::ZeroAmount);
        }
        let reserve = self.get_reserve();
        if amount > MAX_POOL_BALANCE - reserve - self.total_borrow {
            return Err(PoolError::AmountTooLarge);
        }
        self.reserves.credit(self.pool_asset.as_slice(), amount);
        self.deposited = Ghost(self.deposited@ + amount);
        assert(self.debts() == old(self).debts());
        assert(self.repays() == old(self).repays());
        Ok(())
    }

    pub open spec fn withdraw_error(
        &self,
        caller: Seq<u8>,
        recipient: Seq<u8>,
        lend_token: Seq<u8>,
        amount: u128,
    ) -> Option<PoolError> {
        if caller != self.lending_pool_spec() {
            Some(PoolError::Unauthorized)
        } else if lend_token != self.lend_token_spec() {
            Some(PoolError::UnsupportedToken)
        } else if is_zero_address(recipient) {
            Some(PoolError::InvalidAddress)
        } else if amount == 0 {
            Some(PoolError::ZeroAmount)
        } else if self.pool_reserve() == 0 || amount > self.pool_reserve() {
            Some(PoolError::InsufficientReserve)
        } else {
            None
        }
    }

    /// Takes `amount` of the primary asset out of the reserve for `recipient`, against
    /// lend receipts handed in; sending the asset and burning the receipts is left to the
    /// caller.
    pub fn withdraw(&mut self, caller: &[u8], recipient: &[u8], lend_token: &[u8], amount: u128) -> (r:
        Result<(), PoolError>)
        requires
            old(self).wf(),
        ensures
            final(self).wf(),
            old(self).keeps(final(self)),
            match r {
                Ok(()) => {
                    &&& old(self).withdraw_error(caller@, recipient@, lend_token@, amount) is None
                    &&& final(self).pool_reserve() == old(self).pool_reserve() - amount
                    &&& final(self).withdrawn_total() == old(self).withdrawn_total() + amount
                    &&& final(self).deposited_total() == old(self).deposited_total()
                    &&& final(self).reserve_of(old(self).borrow_token_spec()) == old(self).reserve_of(
                        old(self).borrow_token_spec(),
                    )
                    &&& old(self).other_reserves_kept(final(self))
                    &&& final(self).nonce() == old(self).nonce()
                    &&& final(self).total_borrowed() == old(self).total_borrowed()
                    &&& final(self).interest_earned() == old(self).interest_earned()
                    &&& final(self).debts() == old(self).debts()
                    &&& final(self).repays() == old(self).repays()
                    &&& final(self).used_repay_ids() == old(self).used_repay_ids()
                },
                Err(e) => old(self).withdraw_error(caller@, recipient@, lend_token@, amount) == Some(e) && *final(self) == *old(self),
            },
    {
        if !bytes_eq(caller, self.lending_pool.as_slice()) {
            return Err(PoolError::Unauthorized);
        }
        if !bytes_eq(lend_token, self.lend_token.as_slice()) {
            return Err(PoolError::UnsupportedToken);
        }
        if address_is_zero(recipient) {
            return Err(PoolError::InvalidAddress);
        }
        if amount == 0 {
            return Err(PoolError::ZeroAmount);
        }
        let reserve = self.get_reserve();
        if reserve == 0 || amount > reserve {
            return Err(PoolError::InsufficientReserve);
        }
        let ok = self.reserves.debit(self.pool_asset.as_slice(), amount);
        assert(ok);
        self.withdrawn = Ghost(self.withdrawn@ + amount);
        assert(self.debts() == old(self).debts());
        assert(self.repays() == old(self).repays());
        Ok(())
    }

    pub open spec fn borrow_error(&self, amount: u128) -> Option<PoolError> {
        if amount == 0 {
            Some(PoolError::ZeroAmount)
        } else if self.pool_reserve() == 0 || amount > self.pool_reserve() {
            Some(PoolError::InsufficientReserve)
        } else if self.nonce() == u64::MAX {
            Some(PoolError::NonceExhausted)
        } else if self.debts().contains_key(keccak_digest(position_preimage(self.nonce()))) {
            Some(PoolError::DuplicatePosition)
        } else {
            None
        }
    }

    /// Lends `amount` of the primary asset against as much collateral of
    /// `collateral_id`, opening a debt position with the given health factor. Returns the
    /// metadata that the borrower's receipt is to carry; minting and sending the receipt
    /// and paying out the asset is left to the caller.
    pub fn borrow(&mut self, collateral_id: &[u8], amount: u128, health_factor: u32, now: u64) -> (r:
        Result<DebtMetadata, PoolError>)
        requires
            old(self).wf(),
        ensures
            final(self).wf(),
            old(self).keeps(final(self)),
            match r {
                Ok(meta) => {
                    &&& old(self).borrow_error(amount) is None
                    &&& meta@ == (MetadataView {
                        position_id: keccak_digest(position_preimage(old(self).nonce())),
                        timestamp: now,
                        collateral_amount: amount,
                        collateral_identifier: collateral_id@,
                        collateral_timestamp: now,
                    })
                    &&& meta.position_id@.len() == 32
                    &&& final(self).debts() == old(self).debts().insert(
                        meta.position_id@,
                        opened_position(amount, health_factor, now, collateral_id@),
                    )
                    &&& final(self).nonce() == old(self).nonce() + 1
                    &&& final(self).pool_reserve() == old(self).pool_reserve() - amount
                    &&& final(self).reserve_of(old(self).borrow_token_spec()) == old(self).reserve_of(
                        old(self).borrow_token_spec(),
                    ) + amount
                    &&& old(self).other_reserves_kept(final(self))
                    &&& final(self).total_borrowed() == old(self).total_borrowed() + amount
                    &&& final(self).interest_earned() == old(self).interest_earned()
                    &&& final(self).repays() == old(self).repays()
                    &&& final(self).used_repay_ids() == old(self).used_repay_ids()
                    &&& final(self).deposited_total() == old(self).deposited_total()
                    &&& final(self).withdrawn_total() == old(self).withdrawn_total()
                },
                Err(e) => old(self).borrow_error(amount) == Some(e) && *final(self) == *old(self),
            },
    {
        if amount == 0 {
            return Err(PoolError::ZeroAmount);
        }
        let reserve = self.get_reserve();
        if reserve == 0 || amount > reserve {
            return Err(PoolError::InsufficientReserve);
        }
        if self.debt_nonce == u64::MAX {
            return Err(PoolError::NonceExhausted);
        }
        let id = crate::hashing::position_id_for(self.debt_nonce);
        if self.debt_positions.find(id.as_slice()).is_some() {
            return Err(PoolError::DuplicatePosition);
        }
        self.debt_nonce = self.debt_nonce + 1;
        let ok = self.reserves.debit(self.pool_asset.as_slice(), amount);
        assert(ok);
        self.reserves.credit(self.borrow_token.as_slice(), amount);
        self.total_borrow = self.total_borrow + amount;
        let meta = DebtMetadata {
            position_id: copy_bytes(id.as_slice()),
            timestamp: now,
            collateral_amount: amount,
            collateral_identifier: copy_bytes(collateral_id),
            collateral_timestamp: now,
        };
        let position = DebtPosition {
            size: amount,
            health_factor,
            is_liquidated: false,
            timestamp: now,
            collateral_amount: amount,
            collateral_identifier: copy_bytes(collateral_id),
        };
        self.debt_positions.insert_new(id, position);
        assert(self.repays() == old(self).repays());
        Ok(meta)
    }
}


impl LiquidityPool {
    pub open spec fn lock_error(
        &self,
        caller: Seq<u8>,
        initial_caller: Seq<u8>,
        receipt_token: Seq<u8>,
        receipt_nonce: u64,
        metadata: Seq<u8>,
        amount: u128,
    ) -> Option<PoolError> {
        if caller != self.lending_pool_spec() {
            Some(PoolError::Unauthorized)
        } else if amount == 0 {
            Some(PoolError::ZeroAmount)
        } else if is_zero_address(initial_caller) {
            Some(PoolError::InvalidAddress)
        } else if receipt_token != self.borrow_token_spec() {
            Some(PoolError::UnsupportedToken)
        } else if decoded(metadata) is None {
            Some(PoolError::MetadataDecode)
        } else if !self.debts().contains_key(decoded(metadata)->0.position_id) {
            Some(PoolError::UnknownDebtPosition)
        } else if self.debts()[decoded(metadata)->0.position_id].is_liquidated {
            Some(PoolError::AlreadyLiquidated)
        } else if amount > self.debts()[decoded(metadata)->0.position_id].size {
            Some(PoolError::InvalidRepaymentAmount)
        } else if self.used_repay_ids().contains(
            keccak_digest(repay_preimage(receipt_token, amount, receipt_nonce)),
        ) {
            Some(PoolError::DuplicateStaging)
        } else {
            None
        }
    }

    /// Stages the repayment of `amount` units of the borrow receipt `receipt_token` /
    /// `receipt_nonce`, whose attached metadata is `metadata`, on behalf of
    /// `initial_caller`. Returns the identifier of the new repay position.
    pub fn lock_for_repay(
        &mut self,
        caller: &[u8],
        initial_caller: &[u8],
        receipt_token: &[u8],
        receipt_nonce: u64,
        metadata: &[u8],
        amount: u128,
    ) -> (r: Result<Vec<u8>, PoolError>)
        requires
            old(self).wf(),
        ensures
            final(self).wf(),
            old(self).keeps(final(self)),
            match r {
                Ok(id) => {
                    &&& old(self).lock_error(
                        caller@,
                        initial_caller@,
                        receipt_token@,
                        receipt_nonce,
                        metadata@,
                        amount,
                    ) is None
                    &&& id@ == keccak_digest(repay_preimage(receipt_token@, amount, receipt_nonce))
                    &&& final(self).repays() == old(self).repays().insert(
                        id@,
                        staged_position(
                            receipt_token@,
                            amount,
                            receipt_nonce,
                            decoded(metadata@)->0,
                        ),
                    )
                    &&& final(self).used_repay_ids() == old(self).used_repay_ids().insert(id@)
                    &&& final(self).nonce() == old(self).nonce()
                    &&& final(self).total_borrowed() == old(self).total_borrowed()
                    &&& final(self).interest_earned() == old(self).interest_earned()
                    &&& forall|a: Seq<u8>| final(self).reserve_of(a) == old(self).reserve_of(a)
                    &&& final(self).debts() == old(self).debts()
                    &&& final(self).deposited_total() == old(self).deposited_total()
                    &&& final(self).withdrawn_total() == old(self).withdrawn_total()
                },
                Err(e) => old(self).lock_error(
                    caller@,
                    initial_caller@,
                    receipt_token@,
                    receipt_nonce,
                    metadata@,
                    amount,
                ) == Some(e) && *final(self) == *old(self),
            },
    {
        if !bytes_eq(caller, self.lending_pool.as_slice()) {
            return Err(PoolError::Unauthorized);
        }
        if amount == 0 {
            return Err(PoolError::ZeroAmount);
        }
        if address_is_zero(initial_caller) {
            return Err(PoolError::InvalidAddress);
        }
        if !bytes_eq(receipt_token, self.borrow_token.as_slice()) {
            return Err(PoolError::UnsupportedToken);
        }
        let meta = match crate::codec::decode_metadata(metadata) {
            Some(m) => m,
            None => {
                return Err(PoolError::MetadataDecode);
            },
        };
        let di = match self.debt_positions.find(meta.position_id.as_slice()) {
            Some(i) => i,
            None => {
                return Err(PoolError::UnknownDebtPosition);
            },
        };
        let debt = self.debt_positions.get(di);
        if debt.is_liquidated {
            return Err(PoolError::AlreadyLiquidated);
        }
        if amount > debt.size {
            return Err(PoolError::InvalidRepaymentAmount);
        }
        let id = crate::hashing::repay_id_for(receipt_token, amount, receipt_nonce);
        if self.repay_ids_used.find(id.as_slice()).is_some() {
            return Err(PoolError::DuplicateStaging);
        }
        let position = RepayPosition {
            identifier: copy_bytes(receipt_token),
            amount,
            nonce: receipt_nonce,
            position_id: meta.position_id,
            borrow_timestamp: meta.timestamp,
            collateral_identifier: meta.collateral_identifier,
            collateral_amount: meta.collateral_amount,
            collateral_timestamp: meta.collateral_timestamp,
        };
        proof {
            assert(!self.repays().contains_key(id@));
        }
        self.repay_positions.insert_new(copy_bytes(id.as_slice()), position);
        self.repay_ids_used.insert_new(copy_bytes(id.as_slice()), true);
        assert(self.debts() == old(self).debts());
        Ok(id)
    }

    /// Whether a payment of `amount` settles the whole of a staged `outstanding` on
    /// which `interest` has accrued.
    pub open spec fn closes(outstanding: u128, interest: int, amount: u128) -> bool {
        amount == outstanding + interest
    }

    /// Principal that a payment of `amount` gives back: all of `outstanding` when it
    /// closes the position, else the payment itself.
    pub open spec fn principal_paid(outstanding: u128, interest: int, amount: u128) -> u128 {
        if Self::closes(outstanding, interest, amount) {
            outstanding
        } else {
            amount
        }
    }

    /// Interest owed now on the staged repay position `id`.
    pub open spec fn staged_interest(&self, id: Seq<u8>, now: u64) -> int {
        self.interest_at(self.repays()[id].amount, self.repays()[id].borrow_timestamp, now)
    }

    pub open spec fn repay_error(
        &self,
        caller: Seq<u8>,
        id: Seq<u8>,
        asset: Seq<u8>,
        amount: u128,
        now: u64,
    ) -> Option<PoolError> {
        let rp = self.repays()[id];
        let interest = self.staged_interest(id, now);
        if caller != self.lending_pool_spec() {
            Some(PoolError::Unauthorized)
        } else if amount == 0 {
            Some(PoolError::ZeroAmount)
        } else if asset != self.pool_asset_spec() {
            Some(PoolError::UnsupportedToken)
        } else if !self.repays().contains_key(id) {
            Some(PoolError::UnknownRepayPosition)
        } else if self.debts()[rp.position_id].is_liquidated {
            Some(PoolError::AlreadyLiquidated)
        } else if !Self::closes(rp.amount, interest, amount) && amount >= rp.amount {
            Some(PoolError::InvalidRepaymentAmount)
        } else if Self::principal_paid(rp.amount, interest, amount) > self.total_borrowed() {
            Some(PoolError::InsufficientReserve)
        } else if Self::closes(rp.amount, interest, amount) && self.interest_earned() + interest
            > u128::MAX {
            Some(PoolError::AmountTooLarge)
        } else {
            None
        }
    }

    /// The repay positions after a successful payment of `amount` on `id`: the position
    /// is gone when the payment closes it, and otherwise owes `amount` less.
    pub open spec fn repays_after(&self, id: Seq<u8>, amount: u128, now: u64) -> Map<
        Seq<u8>,
        RepayPositionView,
    > {
        let rp = self.repays()[id];
        if Self::closes(rp.amount, self.staged_interest(id, now), amount) {
            self.repays().remove(id)
        } else {
            self.repays().insert(id, RepayPositionView { amount: (rp.amount - amount) as u128, ..rp })
        }
    }

    /// Receipt units that a payment of `amount` on the staged repay position `id` at time
    /// `now` settles: the whole staged amount when the payment closes the position, the
    /// payment itself otherwise. `None` if nothing is staged under `id`.
    pub fn settled_principal(&self, id: &[u8], amount: u128, now: u64) -> (r: Option<u128>)
        requires
            self.wf(),
        ensures
            match r {
                Some(units) => self.repays().contains_key(id@) && units == Self::principal_paid(
                    self.repays()[id@].amount,
                    self.staged_interest(id@, now),
                    amount,
                ),
                None => !self.repays().contains_key(id@),
            },
    {
        let ri = match self.repay_positions.find(id) {
            Some(i) => i,
            None => {
                return None;
            },
        };
        let rp = self.repay_positions.get(ri);
        let interest = self.get_debt_interest(rp.amount, rp.borrow_timestamp, now);
        proof {
            let p = self.repays()[id@].position_id;
            assert(self.debts().contains_key(p));
            assert(rp.amount <= self.debts()[p].size);
        }
        if amount == rp.amount + interest {
            Some(rp.amount)
        } else {
            Some(amount)
        }
    }

    /// Pays `amount` of the primary asset towards the staged repay position `id` at time
    /// `now`. A payment of exactly the outstanding amount plus accrued interest closes
    /// the position; a payment below the outstanding amount reduces it and accrues no
    /// interest; any other amount is refused. The principal paid returns to the reserve
    /// and the interest is kept apart. Returns the position as staged, with `amount` set
    /// to the payment; the receipt units it settles, to be burnt by the caller, are the
    /// principal paid (see `settled_principal`).
    pub fn repay(&mut self, caller: &[u8], id: &[u8], asset: &[u8], amount: u128, now: u64) -> (r:
        Result<RepayPosition, PoolError>)
        requires
            old(self).wf(),
        ensures
            final(self).wf(),
            old(self).keeps(final(self)),
            match r {
                Ok(snapshot) => {
                    let rp = old(self).repays()[id@];
                    let interest = old(self).staged_interest(id@, now);
                    let principal = Self::principal_paid(rp.amount, interest, amount);
                    &&& old(self).repay_error(caller@, id@, asset@, amount, now) is None
                    &&& snapshot@ == (RepayPositionView { amount, ..rp })
                    &&& final(self).repays() == old(self).repays_after(id@, amount, now)
                    &&& final(self).used_repay_ids() == old(self).used_repay_ids()
                    &&& final(self).pool_reserve() == old(self).pool_reserve() + principal
                    &&& final(self).reserve_of(old(self).borrow_token_spec()) == old(self).reserve_of(
                        old(self).borrow_token_spec(),
                    ) - principal
                    &&& old(self).other_reserves_kept(final(self))
                    &&& final(self).total_borrowed() == old(self).total_borrowed() - principal
                    &&& final(self).interest_earned() == old(self).interest_earned() + if Self::closes(
                        rp.amount,
                        interest,
                        amount,
                    ) {
                        interest
                    } else {
                        0
                    }
                    &&& final(self).nonce() == old(self).nonce()
                    &&& final(self).debts() == old(self).debts()
                    &&& final(self).deposited_total() == old(self).deposited_total()
                    &&& final(self).withdrawn_total() == old(self).withdrawn_total()
                },
                Err(e) => old(self).repay_error(caller@, id@, asset@, amount, now) == Some(e)
                    && *final(self) == *old(self),
            },
    {
        if !bytes_eq(caller, self.lending_pool.as_slice()) {
            return Err(PoolError::Unauthorized);
        }
        if amount == 0 {
            return Err(PoolError::ZeroAmount);
        }
        if !bytes_eq(asset, self.pool_asset.as_slice()) {
            return Err(PoolError::UnsupportedToken);
        }
        let ri = match self.repay_positions.find(id) {
            Some(i) => i,
            None => {
                return Err(PoolError::UnknownRepayPosition);
            },
        };
        let rp = self.repay_positions.get(ri);
        let outstanding = rp.amount;
        let di = match self.debt_positions.find(rp.position_id.as_slice()) {
            Some(i) => i,
            None => {
                return Err(PoolError::UnknownDebtPosition);
            },
        };
        if self.debt_positions.get(di).is_liquidated {
            return Err(PoolError::AlreadyLiquidated);
        }
        let interest = self.get_debt_interest(outstanding, rp.borrow_timestamp, now);
        let closes = amount == outstanding + interest;
        if !closes && amount >= outstanding {
            return Err(PoolError::InvalidRepaymentAmount);
        }
        let principal = if closes {
            outstanding
        } else {
            amount
        };
        if principal > self.total_borrow {
            return Err(PoolError::InsufficientReserve);
        }
        if closes && interest > u128::MAX - self.earned_interest {
            return Err(PoolError::AmountTooLarge);
        }
        let snapshot = RepayPosition {
            identifier: copy_bytes(rp.identifier.as_slice()),
            amount,
            nonce: rp.nonce,
            position_id: copy_bytes(rp.position_id.as_slice()),
            borrow_timestamp: rp.borrow_timestamp,
            collateral_identifier: copy_bytes(rp.collateral_identifier.as_slice()),
            collateral_amount: rp.collateral_amount,
            collateral_timestamp: rp.collateral_timestamp,
        };
        if closes {
            self.repay_positions.remove_at(ri);
            self.earned_interest = self.earned_interest + interest;
        } else {
            self.repay_positions.set_amount(ri, outstanding - amount);
        }
        let ok = self.reserves.debit(self.borrow_token.as_slice(), principal);
        assert(ok);
        self.reserves.credit(self.pool_asset.as_slice(), principal);
        self.total_borrow = self.total_borrow - principal;
        assert(self.debts() == old(self).debts());
        Ok(snapshot)
    }

    pub open spec fn liquidate_error(
        &self,
        caller: Seq<u8>,
        position_id: Seq<u8>,
        token: Seq<u8>,
        amount: u128,
        now: u64,
    ) -> Option<PoolError> {
        let d = self.debts()[position_id];
        if caller != self.lending_pool_spec() {
            Some(PoolError::Unauthorized)
        } else if amount == 0 {
            Some(PoolError::ZeroAmount)
        } else if token != self.pool_asset_spec() {
            Some(PoolError::UnsupportedToken)
        } else if !self.debts().contains_key(position_id) {
            Some(PoolError::UnknownDebtPosition)
        } else if d.is_liquidated {
            Some(PoolError::AlreadyLiquidated)
        } else if d.health_factor >= self.threshold() {
            Some(PoolError::HealthFactorTooHigh)
        } else if amount != d.size + self.interest_at(d.size, d.timestamp, now) {
            Some(PoolError::InvalidLiquidationAmount)
        } else {
            None
        }
    }

    /// Closes the under-collateralised position `position_id` against a payment of
    /// exactly its size plus accrued interest, and returns the collateral it is owed.
    pub fn liquidate(
        &mut self,
        caller: &[u8],
        position_id: &[u8],
        token: &[u8],
        amount: u128,
        now: u64,
    ) -> (r: Result<LiquidateData, PoolError>)
        requires
            old(self).wf(),
        ensures
            final(self).wf(),
            old(self).keeps(final(self)),
            match r {
                Ok(data) => {
                    let d = old(self).debts()[position_id@];
                    &&& old(self).liquidate_error(caller@, position_id@, token@, amount, now) is None
                    &&& data.collateral_token@ == d.collateral_identifier
                    &&& data.amount == amount
                    &&& final(self).debts() == old(self).debts().insert(
                        position_id@,
                        DebtPositionView { is_liquidated: true, ..d },
                    )
                    &&& final(self).repays() == old(self).repays()
                    &&& final(self).used_repay_ids() == old(self).used_repay_ids()
                    &&& final(self).nonce() == old(self).nonce()
                    &&& final(self).total_borrowed() == old(self).total_borrowed()
                    &&& final(self).interest_earned() == old(self).interest_earned()
                    &&& forall|a: Seq<u8>| final(self).reserve_of(a) == old(self).reserve_of(a)
                    &&& final(self).deposited_total() == old(self).deposited_total()
                    &&& final(self).withdrawn_total() == old(self).withdrawn_total()
                },
                Err(e) => old(self).liquidate_error(caller@, position_id@, token@, amount, now)
                    == Some(e) && *final(self) == *old(self),
            },
    {
        if !bytes_eq(caller, self.lending_pool.as_slice()) {
            return Err(PoolError::Unauthorized);
        }
        if amount == 0 {
            return Err(PoolError::ZeroAmount);
        }
        if !bytes_eq(token, self.pool_asset.as_slice()) {
            return Err(PoolError::UnsupportedToken);
        }
        let di = match self.debt_positions.find(position_id) {
            Some(i) => i,
            None => {
                return Err(PoolError::UnknownDebtPosition);
            },
        };
        let d = self.debt_positions.get(di);
        if d.is_liquidated {
            return Err(PoolError::AlreadyLiquidated);
        }
        if d.health_factor >= self.health_factor_threshold {
            return Err(PoolError::HealthFactorTooHigh);
        }
        let interest = self.get_debt_interest(d.size, d.timestamp, now);
        if amount != d.size + interest {
            return Err(PoolError::InvalidLiquidationAmount);
        }
        let data = LiquidateData {
            collateral_token: copy_bytes(d.collateral_identifier.as_slice()),
            amount,
        };
        self.debt_positions.set_liquidated(di);
        assert(self.repays() == old(self).repays());
        Ok(data)
    }
}


/// The primary-asset reserve never goes negative, and always equals what was deposited,
/// less what was withdrawn and what is lent out and not yet paid back.
pub proof fn lemma_reserve_conservation(pool: &LiquidityPool)
    requires
        pool.wf(),
    ensures
        pool.pool_reserve() >= 0,
        pool.pool_reserve() == pool.deposited_total() - pool.withdrawn_total()
            - pool.total_borrowed(),
{
}

/// A liquidated debt position refuses any further liquidation, any new staging of its
/// receipt for repayment, and any repayment of what was staged for it. (Every operation
/// keeps a liquidated position liquidated: see `keeps`.)
pub proof fn lemma_liquidated_is_final(pool: &LiquidityPool, position_id: Seq<u8>)
    requires
        pool.wf(),
        pool.debts().contains_key(position_id),
        pool.debts()[position_id].is_liquidated,
    ensures
        forall|caller: Seq<u8>, token: Seq<u8>, amount: u128, now: u64| #[trigger]
            pool.liquidate_error(caller, position_id, token, amount, now) is Some,
        forall|
            caller: Seq<u8>,
            initial_caller: Seq<u8>,
            receipt_token: Seq<u8>,
            receipt_nonce: u64,
            metadata: Seq<u8>,
            amount: u128,
        |
            decoded(metadata) is Some && decoded(metadata)->0.position_id == position_id
                ==> #[trigger] pool.lock_error(
                caller,
                initial_caller,
                receipt_token,
                receipt_nonce,
                metadata,
                amount,
            ) is Some,
        forall|caller: Seq<u8>, id: Seq<u8>, asset: Seq<u8>, amount: u128, now: u64|
            pool.repays().contains_key(id) && pool.repays()[id].position_id == position_id
                ==> #[trigger] pool.repay_error(caller, id, asset, amount, now) is Some,
{
}

/// Paying, from the lending pool and in the primary asset, exactly what was staged plus
/// the interest accrued on it is accepted and removes the repay position, leaving
/// nothing outstanding on it.
pub proof fn lemma_exact_payment_closes(pool: &LiquidityPool, id: Seq<u8>, now: u64)
    requires
        pool.wf(),
        pool.repays().contains_key(id),
        !pool.debts()[pool.repays()[id].position_id].is_liquidated,
        pool.repays()[id].amount <= pool.total_borrowed(),
        pool.interest_earned() + pool.staged_interest(id, now) <= u128::MAX,
    ensures
        ({
            let amount = pool.repays()[id].amount + pool.staged_interest(id, now);
            &&& 0 < amount <= u128::MAX
            &&& pool.repay_error(
                pool.lending_pool_spec(),
                id,
                pool.pool_asset_spec(),
                amount as u128,
                now,
            ) is None
            &&& pool.repays_after(id, amount as u128, now) == pool.repays().remove(id)
            &&& !pool.repays_after(id, amount as u128, now).contains_key(id)
        }),
{
    let rp = pool.repays()[id];
    pool.lemma_interest_bound(rp.amount, rp.borrow_timestamp, now);
}

} // verus!
