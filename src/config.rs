//! Owner-controlled configuration of the stablecoin pool: its run state and settings.
use crate::keyed::bytes_eq;
use crate::positions::Registry;
use vstd::prelude::*;

verus! {

/// Whether the pool runs, and whether swaps are open.
#[derive(PartialEq, Eq, Structural, Debug, Clone, Copy)]
pub enum State {
    Inactive,
    Active,
    ActiveNoSwaps,
}

#[derive(PartialEq, Eq, Structural, Debug, Clone, Copy)]
pub enum ConfigError {
    /// The caller is not the owner.
    NotOwner,
    /// The pool cannot run before its stablecoin is issued.
    StablecoinNotIssued,
}

/// What is refused when `caller` tries to start a pool owned by `owner`.
pub open spec fn start_error(caller: Seq<u8>, owner: Seq<u8>, stablecoin_issued: bool) -> Option<
    ConfigError,
> {
    if caller != owner {
        Some(ConfigError::NotOwner)
    } else if !stablecoin_issued {
        Some(ConfigError::StablecoinNotIssued)
    } else {
        None
    }
}

/// Settings that only the owner may change. Every setter refuses any other caller with
/// `NotOwner`, changing nothing, and otherwise changes only what it names.
pub trait ConfigModule: Sized {
    spec fn owner_spec(&self) -> Seq<u8>;

    spec fn state_spec(&self) -> State;

    spec fn stablecoin_issued(&self) -> bool;

    spec fn tickers(&self) -> Map<Seq<u8>, Seq<u8>>;

    spec fn spread_fee(&self) -> u128;

    spec fn recovery_period(&self) -> u64;

    spec fn wf(&self) -> bool;

    /// Sets the display ticker of `token_id`.
    fn set_token_ticker(&mut self, caller: &[u8], token_id: Vec<u8>, ticker: Vec<u8>) -> (r:
        Result<(), ConfigError>)
        requires
            old(self).wf(),
        ensures
            final(self).wf(),
            r is Ok <==> caller@ == old(self).owner_spec(),
            r is Ok ==> final(self).tickers() == old(self).tickers().insert(token_id@, ticker@)
                && final(self).state_spec() == old(self).state_spec() && final(self).owner_spec()
                == old(self).owner_spec() && final(self).stablecoin_issued() == old(self).stablecoin_issued()
                && final(self).spread_fee() == old(self).spread_fee() && final(self).recovery_period()
                == old(self).recovery_period(),
            r is Err ==> r == Err::<(), ConfigError>(ConfigError::NotOwner) && *final(self) == *old(self),
    ;

    /// Stops the pool.
    fn pause(&mut self, caller: &[u8]) -> (r: Result<(), ConfigError>)
        requires
            old(self).wf(),
        ensures
            final(self).wf(),
            r is Ok <==> caller@ == old(self).owner_spec(),
            r is Ok ==> final(self).state_spec() == State::Inactive && final(self).owner_spec()
                == old(self).owner_spec() && final(self).stablecoin_issued() == old(self).stablecoin_issued()
                && final(self).tickers() == old(self).tickers() && final(self).spread_fee() == old(self).spread_fee()
                && final(self).recovery_period() == old(self).recovery_period(),
            r is Err ==> r == Err::<(), ConfigError>(ConfigError::NotOwner) && *final(self) == *old(self),
    ;

    /// Runs the pool with swaps open; needs the stablecoin issued.
    fn resume(&mut self, caller: &[u8]) -> (r: Result<(), ConfigError>)
        requires
            old(self).wf(),
        ensures
            final(self).wf(),
            match r {
                Ok(()) => start_error(caller@, old(self).owner_spec(), old(self).stablecoin_issued()) is None
                    && final(self).state_spec() == State::Active && final(self).owner_spec()
                    == old(self).owner_spec() && final(self).stablecoin_issued() == old(self).stablecoin_issued()
                    && final(self).tickers() == old(self).tickers() && final(self).spread_fee() == old(self).spread_fee()
                    && final(self).recovery_period() == old(self).recovery_period(),
                Err(e) => start_error(caller@, old(self).owner_spec(), old(self).stablecoin_issued())
                    == Some(e) && *final(self) == *old(self),
            },
    ;

    /// Runs the pool with swaps closed; needs the stablecoin issued.
    fn set_state_active_no_swaps(&mut self, caller: &[u8]) -> (r: Result<(), ConfigError>)
        requires
            old(self).wf(),
        ensures
            final(self).wf(),
            match r {
                Ok(()) => start_error(caller@, old(self).owner_spec(), old(self).stablecoin_issued()) is None
                    && final(self).state_spec() == State::ActiveNoSwaps && final(self).owner_spec()
                    == old(self).owner_spec() && final(self).stablecoin_issued() == old(self).stablecoin_issued()
                    && final(self).tickers() == old(self).tickers() && final(self).spread_fee() == old(self).spread_fee()
                    && final(self).recovery_period() == old(self).recovery_period(),
                Err(e) => start_error(caller@, old(self).owner_spec(), old(self).stablecoin_issued())
                    == Some(e) && *final(self) == *old(self),
            },
    ;

    fn set_spread_fee_min_percent(&mut self, caller: &[u8], spread_fee_percent: u128) -> (r:
        Result<(), ConfigError>)
        requires
            old(self).wf(),
        ensures
            final(self).wf(),
            r is Ok <==> caller@ == old(self).owner_spec(),
            r is Ok ==> final(self).spread_fee() == spread_fee_percent && final(self).state_spec()
                == old(self).state_spec() && final(self).owner_spec() == old(self).owner_spec()
                && final(self).stablecoin_issued() == old(self).stablecoin_issued() && final(self).tickers()
                == old(self).tickers() && final(self).recovery_period() == old(self).recovery_period(),
            r is Err ==> r == Err::<(), ConfigError>(ConfigError::NotOwner) && *final(self) == *old(self),
    ;

    fn set_pool_recovery_period(&mut self, caller: &[u8], pool_recovery_period: u64) -> (r:
        Result<(), ConfigError>)
        requires
            old(self).wf(),
        ensures
            final(self).wf(),
            r is Ok <==> caller@ == old(self).owner_spec(),
            r is Ok ==> final(self).recovery_period() == pool_recovery_period && final(self).state_spec()
                == old(self).state_spec() && final(self).owner_spec() == old(self).owner_spec()
                && final(self).stablecoin_issued() == old(self).stablecoin_issued() && final(self).tickers()
                == old(self).tickers() && final(self).spread_fee() == old(self).spread_fee(),
            r is Err ==> r == Err::<(), ConfigError>(ConfigError::NotOwner) && *final(self) == *old(self),
    ;

    /// The pool runs, with or without swaps.
    fn is_state_active(&self) -> (r: bool)
        ensures
            r == (self.state_spec() == State::Active || self.state_spec() == State::ActiveNoSwaps),
    ;

    /// Swaps are open.
    fn can_swap(&self) -> (r: bool)
        ensures
            r == (self.state_spec() == State::Active),
    ;
}

/// The configuration of one stablecoin pool.
pub struct StablecoinConfig {
    owner: Vec<u8>,
    state: State,
    stablecoin: Option<Vec<u8>>,
    token_tickers: Registry<Vec<u8>>,
    spread_fee_min_percent: u128,
    pool_recovery_period: u64,
}

impl StablecoinConfig {
    /// A paused configuration owned by `owner`, with no stablecoin yet.
    pub fn new(owner: &[u8]) -> (r: StablecoinConfig)
        ensures
            r.wf(),
            r.owner_spec() == owner@,
            r.state_spec() == State::Inactive,
            !r.stablecoin_issued(),
            r.tickers() == Map::<Seq<u8>, Seq<u8>>::empty(),
            r.spread_fee() == 0,
            r.recovery_period() == 0,
    {
        let mut o: Vec<u8> = Vec::new();
        let mut i: usize = 0;
        while i < owner.len()
            invariant
                i <= owner@.len(),
                o@ == owner@.subrange(0, i as int),
            decreases owner@.len() - i,
        {
            o.push(owner[i]);
            i = i + 1;
            assert(o@ =~= owner@.subrange(0, i as int));
        }
        assert(owner@.subrange(0, owner@.len() as int) =~= owner@);
        StablecoinConfig {
            owner: o,
            state: State::Inactive,
            stablecoin: None,
            token_tickers: Registry::new(),
            spread_fee_min_percent: 0,
            pool_recovery_period: 0,
        }
    }

    pub fn get_state(&self) -> (r: State)
        ensures
            r == self.state_spec(),
    {
        self.state
    }

    pub fn get_spread_fee_min_percent(&self) -> (r: u128)
        ensures
            r == self.spread_fee(),
    {
        self.spread_fee_min_percent
    }

    pub fn get_pool_recovery_period(&self) -> (r: u64)
        ensures
            r == self.recovery_period(),
    {
        self.pool_recovery_period
    }

    /// The ticker set for `token_id`, if any.
    pub fn token_ticker(&self, token_id: &[u8]) -> (r: Option<&Vec<u8>>)
        requires
            self.wf(),
        ensures
            match r {
                Some(t) => self.tickers().contains_key(token_id@) && t@ == self.tickers()[token_id@],
                None => !self.tickers().contains_key(token_id@),
            },
    {
        match self.token_tickers.find(token_id) {
            Some(i) => Some(self.token_tickers.get(i)),
            None => None,
        }
    }

    /// Records the identifier of the issued stablecoin.
    pub fn set_stablecoin(&mut self, caller: &[u8], token_id: Vec<u8>) -> (r: Result<(), ConfigError>)
        requires
            old(self).wf(),
        ensures
            final(self).wf(),
            final(self).state_spec() == old(self).state_spec(),
            final(self).owner_spec() == old(self).owner_spec(),
            final(self).tickers() == old(self).tickers(),
            final(self).spread_fee() == old(self).spread_fee(),
            final(self).recovery_period() == old(self).recovery_period(),
            r is Ok <==> caller@ == old(self).owner_spec(),
            r is Ok ==> final(self).stablecoin_issued(),
            r is Err ==> r == Err::<(), ConfigError>(ConfigError::NotOwner) && *final(self) == *old(self),
    {
        if !bytes_eq(caller, self.owner.as_slice()) {
            return Err(ConfigError::NotOwner);
        }
        self.stablecoin = Some(token_id);
        Ok(())
    }
}

impl ConfigModule for StablecoinConfig {
    closed spec fn owner_spec(&self) -> Seq<u8> {
        self.owner@
    }

    closed spec fn state_spec(&self) -> State {
        self.state
    }

    closed spec fn stablecoin_issued(&self) -> bool {
        self.stablecoin is Some
    }

    closed spec fn tickers(&self) -> Map<Seq<u8>, Seq<u8>> {
        self.token_tickers.map()
    }

    closed spec fn spread_fee(&self) -> u128 {
        self.spread_fee_min_percent
    }

    closed spec fn recovery_period(&self) -> u64 {
        self.pool_recovery_period
    }

    closed spec fn wf(&self) -> bool {
        self.token_tickers.wf()
    }

    fn set_token_ticker(&mut self, caller: &[u8], token_id: Vec<u8>, ticker: Vec<u8>) -> (r:
        Result<(), ConfigError>) {
        if !bytes_eq(caller, self.owner.as_slice()) {
            return Err(ConfigError::NotOwner);
        }
        if let Some(i) = self.token_tickers.find(token_id.as_slice()) {
            self.token_tickers.remove_at(i);
        }
        self.token_tickers.insert_new(token_id, ticker);
        Ok(())
    }

    fn pause(&mut self, caller: &[u8]) -> (r: Result<(), ConfigError>) {
        if !bytes_eq(caller, self.owner.as_slice()) {
            return Err(ConfigError::NotOwner);
        }
        self.state = State::Inactive;
        Ok(())
    }

    fn resume(&mut self, caller: &[u8]) -> (r: Result<(), ConfigError>) {
        if !bytes_eq(caller, self.owner.as_slice()) {
            return Err(ConfigError::NotOwner);
        }
        if self.stablecoin.is_none() {
            return Err(ConfigError::StablecoinNotIssued);
        }
        self.state = State::Active;
        Ok(())
    }

    fn set_state_active_no_swaps(&mut self, caller: &[u8]) -> (r: Result<(), ConfigError>) {
        if !bytes_eq(caller, self.owner.as_slice()) {
            return Err(ConfigError::NotOwner);
        }
        if self.stablecoin.is_none() {
            return Err(ConfigError::StablecoinNotIssued);
        }
        self.state = State::ActiveNoSwaps;
        Ok(())
    }

    fn set_spread_fee_min_percent(&mut self, caller: &[u8], spread_fee_percent: u128) -> (r:
        Result<(), ConfigError>) {
        if !bytes_eq(caller, self.owner.as_slice()) {
            return Err(ConfigError::NotOwner);
        }
        self.spread_fee_min_percent = spread_fee_percent;
        Ok(())
    }

    fn set_pool_recovery_period(&mut self, caller: &[u8], pool_recovery_period: u64) -> (r:
        Result<(), ConfigError>) {
        if !bytes_eq(caller, self.owner.as_slice()) {
            return Err(ConfigError::NotOwner);
        }
        self.pool_recovery_period = pool_recovery_period;
        Ok(())
    }

    fn is_state_active(&self) -> (r: bool) {
        self.state == State::Active || self.state == State::ActiveNoSwaps
    }

    fn can_swap(&self) -> (r: bool) {
        self.state == State::Active
    }
}

} // verus!
