use vstd::prelude::*;

verus! {

/// Hands out the next id from a counter that the caller owns: returns the
/// counter's value and advances it by one, wrapping to zero past the
/// largest value.
pub fn get_id(counter: &mut usize) -> (id: usize)
    ensures
        id == *old(counter),
        *final(counter) == (if *old(counter) == usize::MAX { 0 } else { *old(counter) + 1 }),
{
    let id = *counter;
    *counter = if id == usize::MAX { 0 } else { id + 1 };
    id
}

/// Why an account refused an operation.
#[derive(Clone, Copy, Debug, PartialEq, Eq, Structural)]
pub enum ClientError {
    /// A withdrawal or dispute asks for more than the available funds.
    InsufficientFunds,
    /// A resolve or chargeback asks for more than the held funds.
    InsufficientHeld,
    /// A deposit would take the total past what the balance type can count.
    BalanceOverflow,
}

/// The balances of one client. Amounts are in minor units.
#[derive(Clone, Copy, Debug, PartialEq, Eq, Structural)]
pub struct Client {
    pub id: u16,
    /// Funds that can be withdrawn or placed under dispute.
    pub available: u64,
    /// Funds frozen by open disputes.
    pub held: u64,
    /// Always `available + held`.
    pub total: u64,
    /// Set by a chargeback; never cleared.
    pub locked: bool,
}

impl Client {
    /// The balance invariant: the total is the sum of available and held
    /// funds (both are unsigned, so neither is ever negative).
    pub open spec fn wf(&self) -> bool {
        self.total as int == self.available as int + self.held as int
    }

    /// A newly seen client: zero balances, unlocked.
    pub open spec fn fresh(id: u16) -> Client {
        Client { id, available: 0, held: 0, total: 0, locked: false }
    }

    pub open spec fn deposit_result(self, amount: u64) -> Result<Client, ClientError> {
        if self.total as int + amount as int > u64::MAX as int {
            Err(ClientError::BalanceOverflow)
        } else {
            Ok(Client {
                available: (self.available + amount) as u64,
                total: (self.total + amount) as u64,
                ..self
            })
        }
    }

    pub open spec fn withdrawal_result(self, amount: u64) -> Result<Client, ClientError> {
        if amount > self.available {
            Err(ClientError::InsufficientFunds)
        } else {
            Ok(Client {
                available: (self.available - amount) as u64,
                total: (self.total - amount) as u64,
                ..self
            })
        }
    }

    pub open spec fn dispute_result(self, amount: u64) -> Result<Client, ClientError> {
        if amount > self.available {
            Err(ClientError::InsufficientFunds)
        } else {
            Ok(Client {
                available: (self.available - amount) as u64,
                held: (self.held + amount) as u64,
                ..self
            })
        }
    }

    pub open spec fn resolve_result(self, amount: u64) -> Result<Client, ClientError> {
        if amount > self.held {
            Err(ClientError::InsufficientHeld)
        } else {
            Ok(Client {
                available: (self.available + amount) as u64,
                held: (self.held - amount) as u64,
                ..self
            })
        }
    }

    pub open spec fn chargeback_result(self, amount: u64) -> Result<Client, ClientError> {
        if amount > self.held {
            Err(ClientError::InsufficientHeld)
        } else {
            Ok(Client {
                held: (self.held - amount) as u64,
                total: (self.total - amount) as u64,
                locked: true,
                ..self
            })
        }
    }

    /// Applies an operation's outcome: the new account on success, the
    /// account untouched and the error on failure.
    pub open spec fn settle(self, outcome: Result<Client, ClientError>) -> (Client, Result<(), ClientError>) {
        match outcome {
            Ok(c) => (c, Ok(())),
            Err(e) => (self, Err(e)),
        }
    }

    /// Makes an account for `id`. Missing balances are zero, a missing lock
    /// flag is `false`, and the total is the sum of the two balances.
    pub fn new(id: u16, available: Option<u64>, held: Option<u64>, locked: Option<bool>) -> (c: Client)
        requires
            available.unwrap_or(0) as int + held.unwrap_or(0) as int <= u64::MAX as int,
        ensures
            c.wf(),
            c.id == id,
            c.available == available.unwrap_or(0),
            c.held == held.unwrap_or(0),
            c.locked == locked.unwrap_or(false),
    {
        let available = match available { Some(a) => a, None => 0 };
        let held = match held { Some(h) => h, None => 0 };
        let locked = match locked { Some(l) => l, None => false };
        Client { id, available, held, total: available + held, locked }
    }

    /// Recomputes the total from the two balances.
    pub fn update_total(&mut self) -> (r: Result<(), ClientError>)
        requires
            old(self).available as int + old(self).held as int <= u64::MAX as int,
        ensures
            r == Ok::<(), ClientError>(()),
            final(self).wf(),
            *final(self) == (Client { total: (old(self).available + old(self).held) as u64, ..*old(self) }),
    {
        self.total = self.available + self.held;
        Ok(())
    }

    /// Recomputes the available funds as what the total keeps beyond the
    /// held funds; fails, changing nothing, where the held funds exceed
    /// the total.
    pub fn update_available(&mut self) -> (r: Result<(), ClientError>)
        ensures
            r is Ok <==> old(self).held <= old(self).total,
            r is Ok ==> r == Ok::<(), ClientError>(()) && final(self).wf() && *final(self) == (Client {
                available: (old(self).total - old(self).held) as u64,
                ..*old(self)
            }),
            r is Err ==> r == Err::<(), ClientError>(ClientError::InsufficientFunds)
                && *final(self) == *old(self),
    {
        if self.held > self.total {
            return Err(ClientError::InsufficientFunds);
        }
        self.available = self.total - self.held;
        Ok(())
    }

    /// Takes `amount` out of the available funds.
    pub fn withdrawal(&mut self, amount: u64) -> (r: Result<(), ClientError>)
        requires
            old(self).wf(),
        ensures
            final(self).wf(),
            (*final(self), r) == old(self).settle(old(self).withdrawal_result(amount)),
    {
        if amount > self.available {
            return Err(ClientError::InsufficientFunds);
        }
        self.available = self.available - amount;
        self.update_total()
    }

    /// Adds `amount` to the available funds.
    pub fn deposit(&mut self, amount: u64) -> (r: Result<(), ClientError>)
        requires
            old(self).wf(),
        ensures
            final(self).wf(),
            (*final(self), r) == old(self).settle(old(self).deposit_result(amount)),
    {
        if amount > u64::MAX - self.total {
            return Err(ClientError::BalanceOverflow);
        }
        self.available = self.available + amount;
        self.update_total()
    }

    /// Moves `amount` from the available to the held funds.
    pub fn dispute(&mut self, amount: u64) -> (r: Result<(), ClientError>)
        requires
            old(self).wf(),
        ensures
            final(self).wf(),
            (*final(self), r) == old(self).settle(old(self).dispute_result(amount)),
    {
        if amount > self.available {
            return Err(ClientError::InsufficientFunds);
        }
        self.available = self.available - amount;
        self.held = self.held + amount;
        self.update_total()
    }

    /// Moves `amount` from the held back to the available funds.
    pub fn resolve(&mut self, amount: u64) -> (r: Result<(), ClientError>)
        requires
            old(self).wf(),
        ensures
            final(self).wf(),
            (*final(self), r) == old(self).settle(old(self).resolve_result(amount)),
    {
        if amount > self.held {
            return Err(ClientError::InsufficientHeld);
        }
        self.held = self.held - amount;
        self.update_available()
    }

    /// Removes `amount` from the held funds and locks the account.
    pub fn chargeback(&mut self, amount: u64) -> (r: Result<(), ClientError>)
        requires
            old(self).wf(),
        ensures
            final(self).wf(),
            (*final(self), r) == old(self).settle(old(self).chargeback_result(amount)),
    {
        if amount > self.held {
            return Err(ClientError::InsufficientHeld);
        }
        self.locked = true;
        self.held = self.held - amount;
        self.update_total()
    }
}

} // verus!
