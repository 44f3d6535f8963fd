use vstd::prelude::*;

verus! {

/// Why a client could not be had from the pool.
#[derive(Clone, Debug)]
pub enum RpcClientPoolError {
    LockPoisoned,
    Provider(String),
}

/// Something that opens new RPC clients.
pub trait RpcClientProvider<C> {
    fn get_new_rpc_client(&self) -> Result<C, String>;
}

/// What the pool gives for what its provider returned: the new client, or the provider's own
/// error.
pub open spec fn provided<C>(result: Result<C, String>) -> Result<C, RpcClientPoolError> {
    match result {
        Ok(c) => Ok(c),
        Err(e) => Err(RpcClientPoolError::Provider(e)),
    }
}

/// Passes on what the provider returned: the new client, or the provider's own error.
pub fn from_provider<C>(result: Result<C, String>) -> (r: Result<C, RpcClientPoolError>)
    ensures
        r == provided(result),
{
    match result {
        Ok(c) => Ok(c),
        Err(e) => Err(RpcClientPoolError::Provider(e)),
    }
}

/// One use of a pool: taking a client, or giving one back.
pub enum PoolUse<C> {
    Take,
    GiveBack(C),
}

/// The idle clients, oldest first, after one use of a pool that keeps at most `capacity`:
/// taking one removes the oldest, when there is one (otherwise the provider is asked and the
/// idle clients stay as they are); giving one back adds it as the newest, when there is room.
pub open spec fn idle_after_use<C>(idle: Seq<C>, capacity: usize, u: PoolUse<C>) -> Seq<C> {
    match u {
        PoolUse::Take => if idle.len() > 0 {
            idle.drop_first()
        } else {
            idle
        },
        PoolUse::GiveBack(c) => if idle.len() < capacity {
            idle.push(c)
        } else {
            idle
        },
    }
}

/// The idle clients after the uses `uses`, in order.
pub open spec fn idle_after_uses<C>(idle: Seq<C>, capacity: usize, uses: Seq<PoolUse<C>>) -> Seq<C>
    decreases uses.len(),
{
    if uses.len() == 0 {
        idle
    } else {
        idle_after_uses(idle_after_use(idle, capacity, uses[0]), capacity, uses.drop_first())
    }
}

/// Whatever uses a pool goes through, taking and giving back in any interleaving, it never
/// holds more idle clients than its capacity.
pub proof fn lemma_pool_uses_stay_within_capacity<C>(
    idle: Seq<C>,
    capacity: usize,
    uses: Seq<PoolUse<C>>,
)
    requires
        idle.len() <= capacity,
    ensures
        idle_after_uses(idle, capacity, uses).len() <= capacity,
    decreases uses.len(),
{
    if uses.len() > 0 {
        lemma_pool_uses_stay_within_capacity(
            idle_after_use(idle, capacity, uses[0]),
            capacity,
            uses.drop_first(),
        );
    }
}

/// A pool of idle RPC clients, handed out oldest first and kept up to `max_size`.
pub struct RpcClientPool<C> {
    clients: Vec<C>,
    max_size: usize,
}

impl<C> RpcClientPool<C> {
    #[verifier::type_invariant]
    spec fn within_capacity(&self) -> bool {
        self.clients@.len() <= self.max_size
    }

    /// The idle clients, oldest first.
    pub closed spec fn idle(&self) -> Seq<C> {
        self.clients@
    }

    /// The most idle clients the pool keeps.
    pub closed spec fn capacity(&self) -> usize {
        self.max_size
    }

    /// An empty pool that keeps at most `max_size` idle clients.
    pub fn new(max_size: usize) -> (p: RpcClientPool<C>)
        ensures
            p.idle() == Seq::<C>::empty(),
            p.capacity() == max_size,
            p.idle().len() <= p.capacity(),
    {
        RpcClientPool { clients: Vec::new(), max_size }
    }

    /// The number of idle clients.
    pub fn len(&self) -> (n: usize)
        ensures
            n == self.idle().len(),
            n <= self.capacity(),
    {
        proof {
            use_type_invariant(self);
        }
        self.clients.len()
    }

    /// Takes the oldest idle client, or asks `provider` for a new one when none is idle and
    /// gives what `from_provider` makes of its answer: the result is then one that the
    /// provider's `get_new_rpc_client` may return (its contract holds of it), mapped.
    pub fn get<P: RpcClientProvider<C>>(&mut self, provider: &P) -> (r: Result<C, RpcClientPoolError>)
        ensures
            final(self).capacity() == old(self).capacity(),
            final(self).idle().len() <= final(self).capacity(),
            final(self).idle() == idle_after_use(old(self).idle(), old(self).capacity(), PoolUse::Take),
            old(self).idle().len() > 0 ==> r == Ok::<C, RpcClientPoolError>(old(self).idle()[0])
                && final(self).idle() == old(self).idle().drop_first(),
            old(self).idle().len() == 0 ==> final(self).idle() == old(self).idle() && exists|
                result: Result<C, String>,
            |
                call_ensures(<P as RpcClientProvider<C>>::get_new_rpc_client, (provider,), result)
                    && r == #[trigger] provided(result),
    {
        proof {
            use_type_invariant(&*self);
        }
        if self.clients.len() > 0 {
            let mut clients: Vec<C> = Vec::new();
            std::mem::swap(&mut clients, &mut self.clients);
            let c = clients.remove(0);
            proof {
                assert(clients@ =~= old(self).clients@.drop_first());
            }
            self.clients = clients;
            Ok(c)
        } else {
            let result = provider.get_new_rpc_client();
            let r = from_provider(result);
            assert(r == provided(result));
            r
        }
    }

    /// Gives a client back: it joins the idle ones if fewer than `capacity` are idle, and is
    /// dropped otherwise.
    pub fn release(&mut self, client: C)
        ensures
            final(self).capacity() == old(self).capacity(),
            final(self).idle().len() <= final(self).capacity(),
            final(self).idle() == idle_after_use(old(self).idle(), old(self).capacity(), PoolUse::GiveBack(client)),
            old(self).idle().len() < old(self).capacity() ==> final(self).idle() == old(
                self,
            ).idle().push(client),
            old(self).idle().len() >= old(self).capacity() ==> final(self).idle() == old(
                self,
            ).idle(),
    {
        proof {
            use_type_invariant(&*self);
        }
        if self.clients.len() < self.max_size {
            let mut clients: Vec<C> = Vec::new();
            std::mem::swap(&mut clients, &mut self.clients);
            clients.push(client);
            self.clients = clients;
        }
    }
}

} // verus!
