//! The pool of API credentials.
//!
//! A fixed set of interchangeable credentials is handed out one at a time and
//! taken back when a unit of work is over.  The credentials rest in an
//! unmanaged pool of the `deadpool` crate.

use crate::error::TrackError;
use deadpool::unmanaged::Pool;
use vstd::prelude::*;

verus! {

/// The unmanaged pool of the `deadpool` crate.
#[verifier::external_type_specification]
#[verifier::external_body]
#[verifier::reject_recursive_types(T)]
pub struct ExPool<T>(Pool<T>);

/// The credentials at rest in a pool, in the order in which they came to
/// rest; the last is the next to leave.
pub uninterp spec fn pool_idle(pool: Pool<String>) -> Seq<Seq<char>>;

/// How many more objects a pool takes without waiting: none once it is
/// closed, else the number it was made for less the number that belong to it.
pub uninterp spec fn pool_room(pool: Pool<String>) -> nat;

/// `Pool::from` on a vector: a pool that holds the vector's items in their
/// order and is made for as many objects as the vector has, so that it takes
/// no more.
#[verifier::external_body]
fn pool_from(credentials: Vec<String>) -> (pool: Pool<String>)
    ensures
        pool_idle(pool) == credentials.deep_view(),
        pool_room(pool) == 0,
{
    Pool::from(credentials)
}

/// `Pool::try_remove`: takes the object that was added last out of the pool
/// for good, without waiting, which leaves room for one more; an error where
/// none rests in it.
#[verifier::external_body]
fn pool_try_remove(pool: &mut Pool<String>) -> (taken: Option<String>)
    ensures
        pool_idle(*old(pool)).len() == 0 ==> taken is None && pool_idle(*final(pool))
            == pool_idle(*old(pool)) && pool_room(*final(pool)) == pool_room(*old(pool)),
        pool_idle(*old(pool)).len() > 0 ==> taken is Some && taken->0@ == pool_idle(
            *old(pool),
        ).last() && pool_idle(*final(pool)) == pool_idle(*old(pool)).drop_last() && pool_room(
            *final(pool),
        ) == pool_room(*old(pool)) + 1,
{
    pool.try_remove().ok()
}

/// `Pool::try_add`: adds an object to the pool, without waiting; hands it
/// back where the pool has no room.
#[verifier::external_body]
fn pool_try_add(pool: &mut Pool<String>, credential: String) -> (refused: Option<String>)
    ensures
        pool_room(*old(pool)) > 0 ==> refused is None && pool_idle(*final(pool)) == pool_idle(
            *old(pool),
        ).push(credential@) && pool_room(*final(pool)) == pool_room(*old(pool)) - 1,
        pool_room(*old(pool)) == 0 ==> refused is Some && refused->0@ == credential@
            && pool_idle(*final(pool)) == pool_idle(*old(pool)) && pool_room(*final(pool))
            == pool_room(*old(pool)),
{
    pool.try_add(credential).err().map(|refusal| refusal.0)
}

/// A fixed set of credentials, each either at rest in the pool or handed
/// out.
pub struct CredentialPool {
    pool: Pool<String>,
    size: usize,
    at_rest: usize,
}

impl CredentialPool {
    /// The credentials at rest, in the order in which they came to rest; the
    /// last is handed out next.
    pub closed spec fn idle(&self) -> Seq<Seq<char>> {
        pool_idle(self.pool)
    }

    /// The number of credentials the pool was set up with.
    pub closed spec fn capacity(&self) -> nat {
        self.size as nat
    }

    /// Every credential is at rest or handed out, and the count of those at
    /// rest is kept.
    pub closed spec fn wf(&self) -> bool {
        &&& self.at_rest == pool_idle(self.pool).len()
        &&& pool_idle(self.pool).len() + pool_room(self.pool) == self.size
    }

    /// The number of credentials handed out.
    pub open spec fn in_use(&self) -> int {
        self.capacity() - self.idle().len()
    }

    /// A pool of the given credentials, all at rest.  An empty set is
    /// refused: no unit of work could ever run.
    pub fn new(credentials: Vec<String>) -> (made: Result<CredentialPool, TrackError>)
        ensures
            credentials.len() == 0 <==> made is Err,
            made matches Err(e) ==> e is CredentialsMissing,
            made matches Ok(pool) ==> pool.wf() && pool.idle() == credentials.deep_view()
                && pool.capacity() == credentials.len(),
    {
        if credentials.len() == 0 {
            return Err(TrackError::CredentialsMissing);
        }
        let size = credentials.len();
        let pool = pool_from(credentials);
        Ok(CredentialPool { pool, size, at_rest: size })
    }

    /// Hands a credential out, or `None` where all are handed out already.
    pub fn acquire(&mut self) -> (credential: Option<String>)
        requires
            old(self).wf(),
        ensures
            final(self).wf(),
            final(self).capacity() == old(self).capacity(),
            old(self).idle().len() == 0 ==> credential is None && final(self).idle() == old(
                self,
            ).idle(),
            old(self).idle().len() > 0 ==> credential is Some && credential->0@ == old(
                self,
            ).idle().last() && final(self).idle() == old(self).idle().drop_last(),
    {
        let taken = pool_try_remove(&mut self.pool);
        if taken.is_some() {
            self.at_rest = self.at_rest - 1;
        }
        taken
    }

    /// Takes a credential back, which is then the next to be handed out.
    /// Where none is handed out the pool is full: the credential is returned
    /// to the caller and the pool stays as it is.
    pub fn release(&mut self, credential: String) -> (refused: Option<String>)
        requires
            old(self).wf(),
        ensures
            final(self).wf(),
            final(self).capacity() == old(self).capacity(),
            old(self).in_use() > 0 ==> refused is None && final(self).idle() == old(
                self,
            ).idle().push(credential@),
            old(self).in_use() == 0 ==> refused is Some && refused->0@ == credential@
                && final(self).idle() == old(self).idle(),
    {
        let refused = pool_try_add(&mut self.pool, credential);
        if refused.is_none() {
            self.at_rest = self.at_rest + 1;
        }
        refused
    }

    /// The number of credentials at rest.
    pub fn available(&self) -> (count: usize)
        requires
            self.wf(),
        ensures
            count == self.idle().len(),
            count <= self.capacity(),
    {
        self.at_rest
    }

    /// The number of credentials the pool was set up with.
    pub fn size(&self) -> (count: usize)
        ensures
            count == self.capacity(),
    {
        self.size
    }
}

} // verus!
