//! The consecutive non-fungible ledger: an ownership representation for
//! large batch mints that records only boundary owners.
//!
//! A batch mint of `n` tokens writes a single owner record at the first
//! identifier of the batch; the owner of any other token is inferred by
//! scanning backward to the nearest recorded owner.  A transfer or burn
//! of a token therefore repairs the boundary behind it: it writes an
//! explicit record for the successor token (when that token is minted,
//! unowned and unburned) so the scan keeps attributing the successor to
//! the previous owner.  Burned tokens carry an explicit marker, since
//! the absence of an owner record is ambiguous once ownership is
//! inferred.
//!
//! Balances, approvals, operators, the identifier counter and the
//! collection metadata are the base ledger's records, shared through
//! the embedded [`Base`].

use vstd::prelude::*;

use crate::errors::NonFungibleTokenError;
use crate::kvmap::KvMap;
use crate::non_fungible::{compose_uri_for_token, spec_dec_digits, Base};
use crate::sequential;

verus! {

/// The consecutive ledger: the base ledger's records (whose owner map
/// holds only boundary records here) plus the burn markers.
pub struct Consecutive {
    pub base: Base,
    /// Token identifier to burn marker; a recorded marker is `true`.
    pub burned: KvMap<bool>,
}

/// The owner record found at the nearest identifier at or below `id`:
/// the backward-scan resolution of the sparse owner map.
pub open spec fn resolved_from(owners: Map<u64, u32>, id: u32) -> Option<u32>
    decreases id,
{
    if owners.contains_key(id as u64) {
        Some(owners[id as u64])
    } else if id == 0 {
        None
    } else {
        resolved_from(owners, (id - 1) as u32)
    }
}

/// The ownership invariants of the consecutive representation:
/// records and markers exist only below the counter, every minted
/// unburned token resolves to some owner, no burned token keeps an
/// owner record, and every burn marker is followed by a record,
/// another marker, or the end of the minted range — so a backward
/// scan never crosses a burned gap into stale ownership.
pub open spec fn own_wf(owners: Map<u64, u32>, burned: Map<u64, bool>, counter: u32) -> bool {
    &&& forall|id: u32| #[trigger] owners.contains_key(id as u64) ==> id < counter
    &&& forall|id: u32| #[trigger] burned.contains_key(id as u64) ==> id < counter
    &&& forall|id: u32|
        id < counter && !burned.contains_key(id as u64) ==> #[trigger] resolved_from(owners, id)
            is Some
    &&& forall|id: u32| #[trigger] burned.contains_key(id as u64) ==> !owners.contains_key(
        id as u64,
    )
    &&& forall|id: u32| #[trigger] burned.contains_key(id as u64) ==> (id + 1 == counter
        || owners.contains_key((id + 1) as u64) || burned.contains_key((id + 1) as u64))
}

impl Consecutive {
    /// Whether `id` carries a burn marker.
    pub open spec fn spec_burned(self, id: u32) -> bool {
        self.burned@.contains_key(id as u64)
    }

    /// The observable owner of `id`: none for an unminted or burned
    /// token, otherwise the resolved boundary record's owner.
    pub open spec fn spec_owner_of(self, id: u32) -> Option<u32> {
        if id >= self.base.counter || self.spec_burned(id) {
            None
        } else {
            resolved_from(self.base.owners@, id)
        }
    }

    /// Well-formedness: the record maps are well-formed, burn markers
    /// are stored as `true`, and the ownership invariants hold.
    pub open spec fn wf(self) -> bool {
        &&& self.base.wf()
        &&& self.burned.wf()
        &&& forall|k: u64| #[trigger] self.burned@.contains_key(k) ==> self.burned@[k] == true
        &&& own_wf(self.base.owners@, self.burned@, self.base.counter)
    }

    /// Creates an empty consecutive ledger.
    pub fn new() -> (st: Consecutive)
        ensures
            st.wf(),
            st.base.counter == 0,
            forall|id: u32| st.spec_owner_of(id) is None,
            forall|id: u32| !st.spec_burned(id),
            forall|a: u32| st.base.spec_balance(a) == 0,
            st.base.metadata is None,
    {
        Consecutive { base: Base::new(), burned: KvMap::new() }
    }
}

proof fn lemma_resolved_frame(m1: Map<u64, u32>, m2: Map<u64, u32>, id: u32)
    requires
        forall|j: u32|
            j <= id ==> (m1.contains_key(#[trigger] (j as u64)) == m2.contains_key(j as u64) && (
            m1.contains_key(j as u64) ==> m1[j as u64] == m2[j as u64])),
    ensures
        resolved_from(m1, id) == resolved_from(m2, id),
    decreases id,
{
    if !m1.contains_key(id as u64) && id > 0 {
        lemma_resolved_frame(m1, m2, (id - 1) as u32);
    }
}

proof fn lemma_resolved_skip(m: Map<u64, u32>, lo: u32, hi: u32)
    requires
        lo <= hi,
        forall|j: u32| lo < j <= hi ==> !m.contains_key(#[trigger] (j as u64)),
    ensures
        resolved_from(m, hi) == resolved_from(m, lo),
    decreases hi - lo,
{
    if lo < hi {
        lemma_resolved_skip(m, lo, (hi - 1) as u32);
    }
}

proof fn lemma_resolved_characterize(m: Map<u64, u32>, id: u32)
    ensures
        match resolved_from(m, id) {
            Some(v) => exists|j: u32|
                #![trigger m.contains_key(j as u64)]
                j <= id && m.contains_key(j as u64) && m[j as u64] == v && (forall|j2: u32|
                    j < j2 <= id ==> !m.contains_key(#[trigger] (j2 as u64))),
            None => forall|j: u32| j <= id ==> !m.contains_key(#[trigger] (j as u64)),
        },
    decreases id,
{
    if m.contains_key(id as u64) {
        let j = id;
        assert(j <= id && m.contains_key(j as u64) && m[j as u64] == resolved_from(m, id)->0 && (
        forall|j2: u32| j < j2 <= id ==> !m.contains_key(#[trigger] (j2 as u64))));
    } else if id > 0 {
        lemma_resolved_characterize(m, (id - 1) as u32);
        match resolved_from(m, id) {
            Some(v) => {
                let j = choose|j: u32|
                    #![trigger m.contains_key(j as u64)]
                    j <= id - 1 && m.contains_key(j as u64) && m[j as u64] == v && (forall|j2: u32|
                        j < j2 <= id - 1 ==> !m.contains_key(#[trigger] (j2 as u64)));
                assert(j <= id && m.contains_key(j as u64) && m[j as u64] == v && (forall|j2: u32|
                    j < j2 <= id ==> !m.contains_key(#[trigger] (j2 as u64))));
            },
            None => (),
        }
    }
}

/// Walks a run of burn markers upward: when `lo` is burned and no owner
/// record stands in `(lo, hi]`, the chain invariant forces every token
/// up to `hi` to be burned as well.
proof fn lemma_burned_run(
    owners: Map<u64, u32>,
    burned: Map<u64, bool>,
    counter: u32,
    lo: u32,
    hi: u32,
)
    requires
        own_wf(owners, burned, counter),
        lo <= hi < counter,
        burned.contains_key(lo as u64),
        forall|j: u32| lo < j <= hi ==> !owners.contains_key(#[trigger] (j as u64)),
    ensures
        burned.contains_key(hi as u64),
    decreases hi - lo,
{
    if lo < hi {
        assert(burned.contains_key(((lo + 1) as u32) as u64));
        lemma_burned_run(owners, burned, counter, (lo + 1) as u32, hi);
    }
}

/// The boundary-repair argument: transferring or burning `token_id`
/// (with the conditional repair record at `token_id + 1`) leaves the
/// resolved owner of every other minted, unburned token unchanged.
///
/// `m2` is the owner map after the update: the repair record is added
/// exactly when the successor is minted, unowned and unburned, and the
/// record at `token_id` itself is then overwritten (`new_at` is the new
/// owner) or removed (`new_at` is `None`, a burn).
proof fn lemma_update_preserves_resolution(
    m0: Map<u64, u32>,
    burned: Map<u64, bool>,
    counter: u32,
    token_id: u32,
    from: u32,
    new_at: Option<u32>,
    m2: Map<u64, u32>,
    id: u32,
)
    requires
        own_wf(m0, burned, counter),
        token_id < counter,
        !burned.contains_key(token_id as u64),
        resolved_from(m0, token_id) == Some(from),
        m2 == (match new_at {
            Some(t) => repaired_map(m0, burned, counter, token_id, from).insert(
                token_id as u64,
                t,
            ),
            None => repaired_map(m0, burned, counter, token_id, from).remove(token_id as u64),
        }),
        id != token_id,
        id < counter,
        !burned.contains_key(id as u64),
    ensures
        resolved_from(m2, id) == resolved_from(m0, id),
{
    let t1 = (token_id + 1) as u32;
    let m1 = repaired_map(m0, burned, counter, token_id, from);
    if id < token_id {
        assert forall|j: u32|
            j <= id implies (m0.contains_key(#[trigger] (j as u64)) == m2.contains_key(j as u64)
            && (m0.contains_key(j as u64) ==> m0[j as u64] == m2[j as u64])) by {
            assert(j as u64 != token_id as u64);
            assert(j as u64 != t1 as u64);
        }
        lemma_resolved_frame(m0, m2, id);
    } else {
        lemma_resolved_characterize(m0, id);
        match resolved_from(m0, id) {
            Some(v) => {
                let j = choose|j: u32|
                    #![trigger m0.contains_key(j as u64)]
                    j <= id && m0.contains_key(j as u64) && m0[j as u64] == v && (forall|j2: u32|
                        j < j2 <= id ==> !m0.contains_key(#[trigger] (j2 as u64)));
                if j > token_id {
                    // The stopping record lies strictly above the
                    // update site; it and everything above it are
                    // untouched.
                    assert(j >= t1);
                    assert(m2.contains_key(j as u64) && m2[j as u64] == v);
                    assert forall|j2: u32| j < j2 <= id implies !m2.contains_key(
                        #[trigger] (j2 as u64),
                    ) by {
                        assert(j2 as u64 != token_id as u64);
                        assert(j2 as u64 != t1 as u64);
                    }
                    lemma_resolved_skip(m2, j, id);
                } else {
                    // No record in (token_id, id] before the update:
                    // the old scan of `id` ran down to `token_id`.
                    lemma_resolved_skip(m0, token_id, id);
                    assert(v == from);
                    if burned.contains_key(t1 as u64) {
                        // A burned successor with no record up to `id`
                        // would force `id` itself to be burned.
                        lemma_burned_run(m0, burned, counter, t1, id);
                        assert(false);
                    } else {
                        // The repair record was written at the
                        // successor and the new scan stops there.
                        assert(m1 == m0.insert(t1 as u64, from));
                        assert(m2.contains_key(t1 as u64) && m2[t1 as u64] == from);
                        assert forall|j2: u32| t1 < j2 <= id implies !m2.contains_key(
                            #[trigger] (j2 as u64),
                        ) by {
                            assert(j2 as u64 != token_id as u64);
                            assert(j2 as u64 != t1 as u64);
                        }
                        lemma_resolved_skip(m2, t1, id);
                    }
                }
            },
            None => {
                lemma_resolved_characterize(m0, token_id);
                assert(false);
            },
        }
    }
}

/// The owner map after the conditional boundary repair: the previous
/// owner is recorded at `token_id + 1` exactly when that token is
/// minted, unowned and unburned.
pub open spec fn repaired_map(
    m0: Map<u64, u32>,
    burned: Map<u64, bool>,
    counter: u32,
    token_id: u32,
    from: u32,
) -> Map<u64, u32> {
    let t1 = (token_id + 1) as u32;
    if token_id + 1 < counter && !m0.contains_key(t1 as u64) && !burned.contains_key(t1 as u64) {
        m0.insert(t1 as u64, from)
    } else {
        m0
    }
}



proof fn lemma_resolved_insert_some(m: Map<u64, u32>, k: u32, v: u32, id: u32)
    requires
        resolved_from(m, id) is Some,
    ensures
        resolved_from(m.insert(k as u64, v), id) is Some,
    decreases id,
{
    if id == k || m.contains_key(id as u64) {
    } else {
        lemma_resolved_insert_some(m, k, v, (id - 1) as u32);
    }
}

impl Consecutive {
    /// Returns the owner of `token_id`: rejects unminted and burned
    /// tokens with `NonExistentToken`, then scans backward to the
    /// nearest recorded boundary owner.
    pub fn owner_of(&self, token_id: u32) -> (r: Result<u32, NonFungibleTokenError>)
        requires
            self.wf(),
        ensures
            r == (match self.spec_owner_of(token_id) {
                Some(o) => Ok::<u32, NonFungibleTokenError>(o),
                None => Err::<u32, NonFungibleTokenError>(NonFungibleTokenError::NonExistentToken),
            }),
    {
        let max = sequential::next_token_id(&self.base.counter);
        let is_burned = match self.burned.get(token_id as u64) {
            Some(b) => b,
            None => false,
        };
        if token_id >= max || is_burned {
            return Err(NonFungibleTokenError::NonExistentToken);
        }
        let mut i: u32 = token_id;
        loop
            invariant
                self.wf(),
                token_id < self.base.counter,
                !self.burned@.contains_key(token_id as u64),
                i <= token_id,
                resolved_from(self.base.owners@, token_id) == resolved_from(self.base.owners@, i),
            decreases i,
        {
            match self.base.owners.get(i as u64) {
                Some(o) => {
                    return Ok(o);
                },
                None => {
                    if i == 0 {
                        proof {
                            assert(resolved_from(self.base.owners@, token_id) is Some);
                            assert(false);
                        }
                        return Err(NonFungibleTokenError::NonExistentToken);
                    }
                    i = i - 1;
                },
            }
        }
    }

    /// Writes an owner record for `token_id` only when the token is
    /// minted, unowned and unburned; a no-op otherwise.  This is the
    /// boundary-repair step of transfers and burns.
    pub fn set_owner_for(&mut self, to: u32, token_id: u32)
        requires
            old(self).wf(),
        ensures
            final(self).wf(),
            final(self).base.owners@ == (if token_id < old(self).base.counter && !old(
                self,
            ).base.owners@.contains_key(token_id as u64) && !old(self).burned@.contains_key(
                token_id as u64,
            ) {
                old(self).base.owners@.insert(token_id as u64, to)
            } else {
                old(self).base.owners@
            }),
            final(self).base.balances == old(self).base.balances,
            final(self).base.approvals == old(self).base.approvals,
            final(self).base.operators == old(self).base.operators,
            final(self).base.counter == old(self).base.counter,
            final(self).base.metadata == old(self).base.metadata,
            final(self).burned == old(self).burned,
    {
        let max = sequential::next_token_id(&self.base.counter);
        let has_owner = self.base.owners.has(token_id as u64);
        let is_burned = match self.burned.get(token_id as u64) {
            Some(b) => b,
            None => false,
        };
        if token_id < max && !has_owner && !is_burned {
            let ghost m0 = self.base.owners@;
            self.base.owners.set(token_id as u64, to);
            proof {
                assert forall|id: u32|
                    id < self.base.counter && !self.burned@.contains_key(id as u64) implies (
                #[trigger] resolved_from(self.base.owners@, id)) is Some by {
                    lemma_resolved_insert_some(m0, token_id, to, id);
                }
            }
        }
    }

    /// The failure, if any, of `update(Some(from), to, token_id)`:
    /// the token must exist (minted and unburned), its inferred owner
    /// must equal `from`, and the balance moves must stay in range.
    pub open spec fn spec_update_error(self, from: u32, to: Option<u32>, token_id: u32) -> Option<
        NonFungibleTokenError,
    > {
        if token_id >= self.base.counter || self.spec_burned(token_id) {
            Some(NonFungibleTokenError::NonExistentToken)
        } else if resolved_from(self.base.owners@, token_id) != Some(from) {
            Some(NonFungibleTokenError::IncorrectOwner)
        } else if self.base.spec_balance(from) == 0 {
            Some(NonFungibleTokenError::MathOverflow)
        } else if to is Some && to->0 != from && self.base.spec_balance(to->0) == u32::MAX {
            Some(NonFungibleTokenError::MathOverflow)
        } else {
            None
        }
    }

    /// Transfers (`to` present) or burns (`to` absent) `token_id`,
    /// currently inferred to be owned by `from`: verifies the inferred
    /// owner, moves the balances, clears the approval slot, repairs
    /// the boundary at the successor token, and rewrites the record at
    /// `token_id` itself — or removes it and sets the burn marker.
    ///
    /// Minting does not go through here: batch mints write their
    /// boundary record directly, so `from` is always present.
    ///
    /// On success the resolved owner of every other minted, unburned
    /// token is unchanged: the boundary repair keeps backward scans
    /// exact.  All checks run before any write, so a failed call
    /// leaves the ledger unchanged.
    pub fn update(&mut self, from: Option<u32>, to: Option<u32>, token_id: u32) -> (r: Result<
        (),
        NonFungibleTokenError,
    >)
        requires
            old(self).wf(),
            from is Some,
        ensures
            final(self).wf(),
            r == (match old(self).spec_update_error(from->0, to, token_id) {
                Some(e) => Err::<(), NonFungibleTokenError>(e),
                None => Ok::<(), NonFungibleTokenError>(()),
            }),
            r is Err ==> *final(self) == *old(self),
            r is Ok ==> {
                &&& final(self).spec_owner_of(token_id) == to
                &&& forall|id: u32|
                    id != token_id ==> final(self).spec_owner_of(id) == old(self).spec_owner_of(id)
                &&& forall|a: u32| final(self).base.spec_balance(a) == old(self).base.spec_balance(
                    a,
                ) + (if to == Some(a) {
                    1int
                } else {
                    0int
                }) - (if from == Some(a) {
                    1int
                } else {
                    0int
                })
                &&& final(self).base.owners@ == (match to {
                    Some(t) => repaired_map(
                        old(self).base.owners@,
                        old(self).burned@,
                        old(self).base.counter,
                        token_id,
                        from->0,
                    ).insert(token_id as u64, t),
                    None => repaired_map(
                        old(self).base.owners@,
                        old(self).burned@,
                        old(self).base.counter,
                        token_id,
                        from->0,
                    ).remove(token_id as u64),
                })
                &&& final(self).burned@ == (if to is Some {
                    old(self).burned@
                } else {
                    old(self).burned@.insert(token_id as u64, true)
                })
                &&& final(self).base.approvals@ == old(self).base.approvals@.remove(
                    token_id as u64,
                )
                &&& final(self).base.operators == old(self).base.operators
                &&& final(self).base.counter == old(self).base.counter
                &&& final(self).base.metadata == old(self).base.metadata
            },
    {
        let from_account = match from {
            Some(f) => f,
            None => {
                proof {
                    assert(false);
                }
                return Err(NonFungibleTokenError::IncorrectOwner);
            },
        };
        // Validation phase: surface the first violated condition
        // without touching any record.
        let owner = match self.owner_of(token_id) {
            Ok(o) => o,
            Err(e) => {
                return Err(e);
            },
        };
        if owner != from_account {
            return Err(NonFungibleTokenError::IncorrectOwner);
        }
        if self.base.balance(from_account) == 0 {
            return Err(NonFungibleTokenError::MathOverflow);
        }
        match to {
            Some(to_account) => {
                if to_account != from_account && self.base.balance(to_account) == u32::MAX {
                    return Err(NonFungibleTokenError::MathOverflow);
                }
            },
            None => (),
        }
        // Write phase: every step below is now known to succeed.
        let ghost st0 = *self;
        match self.base.decrease_balance(from_account, 1) {
            Ok(_) => (),
            Err(e) => {
                proof {
                    assert(false);
                }
                return Err(e);
            },
        }
        self.base.approvals.remove(token_id as u64);
        self.set_owner_for(from_account, token_id + 1);
        let ghost m1 = self.base.owners@;
        proof {
            assert(m1 == repaired_map(
                st0.base.owners@,
                st0.burned@,
                st0.base.counter,
                token_id,
                from_account,
            ));
        }
        match to {
            Some(to_account) => {
                match self.base.increase_balance(to_account, 1) {
                    Ok(_) => (),
                    Err(e) => {
                        proof {
                            assert(false);
                        }
                        return Err(e);
                    },
                }
                self.base.owners.set(token_id as u64, to_account);
                proof {
                    self.lemma_update_wf_and_preserves(st0, token_id, from_account, Some(
                        to_account,
                    ));
                }
            },
            None => {
                self.base.owners.remove(token_id as u64);
                self.burned.set(token_id as u64, true);
                proof {
                    self.lemma_update_wf_and_preserves(st0, token_id, from_account, None);
                }
            },
        }
        Ok(())
    }

    /// Packages the well-formedness and resolution-preservation
    /// arguments shared by the transfer and burn arms of [`update`].
    proof fn lemma_update_wf_and_preserves(
        self,
        st0: Consecutive,
        token_id: u32,
        from: u32,
        new_at: Option<u32>,
    )
        requires
            st0.wf(),
            token_id < st0.base.counter,
            !st0.burned@.contains_key(token_id as u64),
            resolved_from(st0.base.owners@, token_id) == Some(from),
            self.base.counter == st0.base.counter,
            self.base.owners@ == (match new_at {
                Some(t) => repaired_map(
                    st0.base.owners@,
                    st0.burned@,
                    st0.base.counter,
                    token_id,
                    from,
                ).insert(token_id as u64, t),
                None => repaired_map(
                    st0.base.owners@,
                    st0.burned@,
                    st0.base.counter,
                    token_id,
                    from,
                ).remove(token_id as u64),
            }),
            self.burned@ == (match new_at {
                Some(t) => st0.burned@,
                None => st0.burned@.insert(token_id as u64, true),
            }),
            self.burned.wf(),
            forall|k: u64| #[trigger] self.burned@.contains_key(k) ==> self.burned@[k] == true,
        ensures
            own_wf(self.base.owners@, self.burned@, self.base.counter),
            self.spec_owner_of(token_id) == new_at,
            forall|id: u32|
                id != token_id ==> self.spec_owner_of(id) == st0.spec_owner_of(id),
    {
        let m0 = st0.base.owners@;
        let burned0 = st0.burned@;
        let counter = st0.base.counter;
        let t1 = (token_id + 1) as u32;
        let m1 = repaired_map(m0, burned0, counter, token_id, from);
        let m2 = self.base.owners@;
        // Resolution of every other minted, unburned token is
        // unchanged.
        assert forall|id: u32| id != token_id implies self.spec_owner_of(id) == st0.spec_owner_of(
            id,
        ) by {
            if id < counter && !burned0.contains_key(id as u64) {
                lemma_update_preserves_resolution(
                    m0,
                    burned0,
                    counter,
                    token_id,
                    from,
                    new_at,
                    m2,
                    id,
                );
            }
        }
        // The updated token itself.
        match new_at {
            Some(t) => {
                assert(m2.contains_key(token_id as u64) && m2[token_id as u64] == t);
            },
            None => (),
        }
        // The ownership invariants hold again.
        assert forall|id: u32| #[trigger] m2.contains_key(id as u64) implies id < counter by {
            if id != token_id && id != t1 {
                assert(m0.contains_key(id as u64));
            }
        }
        assert forall|id: u32|
            id < counter && !self.burned@.contains_key(id as u64) implies (
        #[trigger] resolved_from(m2, id)) is Some by {
            if id == token_id {
                assert(new_at is Some);
            } else {
                assert(!burned0.contains_key(id as u64));
                lemma_update_preserves_resolution(
                    m0,
                    burned0,
                    counter,
                    token_id,
                    from,
                    new_at,
                    m2,
                    id,
                );
                assert(resolved_from(m0, id) is Some);
            }
        }
        assert forall|id: u32| #[trigger] self.burned@.contains_key(id as u64)
            implies !m2.contains_key(id as u64) by {
            if id != token_id && id != t1 {
                assert(burned0.contains_key(id as u64) && !m0.contains_key(id as u64));
            }
            if id == t1 {
                assert(burned0.contains_key(id as u64));
            }
        }
        assert forall|id: u32| #[trigger] self.burned@.contains_key(id as u64) implies (id + 1
            == counter || m2.contains_key(((id + 1) as u32) as u64) || self.burned@.contains_key(
            ((id + 1) as u32) as u64,
        )) by {
            if id == token_id {
                // The freshly burned token: the repair wrote at the
                // successor, or the successor was already owned or
                // burned, or the minted range ends here.
                if token_id + 1 < counter {
                    if !m0.contains_key(t1 as u64) && !burned0.contains_key(t1 as u64) {
                        assert(m2.contains_key(t1 as u64));
                    } else if m0.contains_key(t1 as u64) {
                        assert(m2.contains_key(t1 as u64));
                    }
                }
            } else {
                assert(burned0.contains_key(id as u64));
                if id + 1 < counter && ((id + 1) as u32) == token_id {
                    // The old witness may have been the record at
                    // `token_id`, which a burn removes; the new burn
                    // marker stands in for it.
                    if new_at is None {
                        assert(self.burned@.contains_key(((id + 1) as u32) as u64));
                    } else {
                        assert(m2.contains_key(((id + 1) as u32) as u64));
                    }
                }
            }
        }
    }
}



impl Consecutive {
    /// Mints `amount` tokens with consecutive identifiers to `to`,
    /// recording only the first identifier's owner, and returns the
    /// last minted identifier.  Fails with `MathOverflow` when the
    /// identifier counter or the receiver's balance would overflow,
    /// leaving the ledger unchanged.  Establishing who may mint is the
    /// caller's concern.
    ///
    /// On success every identifier of the batch resolves to `to`, and
    /// the resolved owner of every previously minted token is
    /// unchanged.
    pub fn batch_mint(&mut self, to: u32, amount: u32) -> (r: Result<u32, NonFungibleTokenError>)
        requires
            old(self).wf(),
            amount >= 1,
        ensures
            final(self).wf(),
            r == if old(self).base.counter + amount > u32::MAX {
                Err::<u32, NonFungibleTokenError>(NonFungibleTokenError::MathOverflow)
            } else if old(self).base.spec_balance(to) + amount > u32::MAX {
                Err::<u32, NonFungibleTokenError>(NonFungibleTokenError::MathOverflow)
            } else {
                Ok::<u32, NonFungibleTokenError>(
                    (old(self).base.counter + amount - 1) as u32,
                )
            },
            r is Err ==> *final(self) == *old(self),
            r is Ok ==> {
                &&& final(self).base.counter == old(self).base.counter + amount
                &&& forall|id: u32|
                    old(self).base.counter <= id < old(self).base.counter + amount ==> final(self).spec_owner_of(id) == Some(to)
                &&& forall|id: u32|
                    !(old(self).base.counter <= id < old(self).base.counter + amount) ==> final(self).spec_owner_of(id) == old(self).spec_owner_of(id)
                &&& forall|a: u32| final(self).base.spec_balance(a) == old(self).base.spec_balance(
                    a,
                ) + (if a == to {
                    amount as int
                } else {
                    0int
                })
                &&& final(self).base.owners@ == old(self).base.owners@.insert(
                    old(self).base.counter as u64,
                    to,
                )
                &&& final(self).burned == old(self).burned
                &&& final(self).base.approvals == old(self).base.approvals
                &&& final(self).base.operators == old(self).base.operators
                &&& final(self).base.metadata == old(self).base.metadata
            },
    {
        if self.base.counter > u32::MAX - amount {
            return Err(NonFungibleTokenError::MathOverflow);
        }
        if self.base.balance(to) > u32::MAX - amount {
            return Err(NonFungibleTokenError::MathOverflow);
        }
        let ghost st0 = *self;
        let first_id = match sequential::increment_token_id(&mut self.base.counter, amount) {
            Ok(id) => id,
            Err(e) => {
                proof {
                    assert(false);
                }
                return Err(e);
            },
        };
        self.base.owners.set(first_id as u64, to);
        match self.base.increase_balance(to, amount) {
            Ok(_) => (),
            Err(e) => {
                proof {
                    assert(false);
                }
                return Err(e);
            },
        }
        proof {
            let m0 = st0.base.owners@;
            let burned0 = st0.burned@;
            let counter0 = st0.base.counter;
            let m2 = self.base.owners@;
            let counter2 = self.base.counter;
            assert(m2 == m0.insert(first_id as u64, to));
            // No record stands above the old counter, so a scan from
            // any identifier of the batch stops at the new boundary.
            assert forall|id: u32|
                counter0 <= id < counter0 + amount implies self.spec_owner_of(id) == Some(to) by {
                assert(!burned0.contains_key(id as u64));
                assert forall|j: u32| first_id < j <= id implies !m2.contains_key(
                    #[trigger] (j as u64),
                ) by {
                    if m0.contains_key(j as u64) {
                        assert(j < counter0);
                    }
                }
                lemma_resolved_skip(m2, first_id, id);
            }
            // Tokens below the old counter are untouched.
            assert forall|id: u32|
                !(counter0 <= id < counter0 + amount) implies self.spec_owner_of(id) == st0
                    .spec_owner_of(id) by {
                if id < counter0 {
                    assert forall|j: u32|
                        j <= id implies (m0.contains_key(#[trigger] (j as u64)) == m2.contains_key(
                        j as u64,
                    ) && (m0.contains_key(j as u64) ==> m0[j as u64] == m2[j as u64])) by {
                        assert(j as u64 != first_id as u64);
                    }
                    lemma_resolved_frame(m0, m2, id);
                }
            }
            // The ownership invariants hold for the grown range.
            assert forall|id: u32| #[trigger] m2.contains_key(id as u64) implies id
                < counter2 by {
                if id != first_id {
                    assert(m0.contains_key(id as u64));
                }
            }
            assert forall|id: u32|
                id < counter2 && !self.burned@.contains_key(id as u64) implies (
            #[trigger] resolved_from(m2, id)) is Some by {
                if id < counter0 {
                    lemma_resolved_insert_some(m0, first_id, to, id);
                } else {
                    assert(self.spec_owner_of(id) == Some(to));
                }
            }
            assert forall|id: u32| #[trigger] self.burned@.contains_key(id as u64) implies (id + 1
                == counter2 || m2.contains_key(((id + 1) as u32) as u64)
                || self.burned@.contains_key(((id + 1) as u32) as u64)) by {
                assert(burned0.contains_key(id as u64));
                if id + 1 == counter0 {
                    assert(m2.contains_key(first_id as u64));
                }
            }
        }
        Ok(first_id + (amount - 1))
    }

    /// Transfers `token_id`, inferred to be owned by `from`, to `to`,
    /// repairing the boundary at the successor token.  Authorization
    /// for `from` is the host's concern and is assumed here.
    ///
    /// On success `token_id` resolves to `to` and every other minted,
    /// unburned token resolves exactly as before.
    pub fn transfer(&mut self, from: u32, to: u32, token_id: u32) -> (r: Result<
        (),
        NonFungibleTokenError,
    >)
        requires
            old(self).wf(),
        ensures
            final(self).wf(),
            r == (match old(self).spec_update_error(from, Some(to), token_id) {
                Some(e) => Err::<(), NonFungibleTokenError>(e),
                None => Ok::<(), NonFungibleTokenError>(()),
            }),
            r is Err ==> *final(self) == *old(self),
            r is Ok ==> {
                &&& final(self).spec_owner_of(token_id) == Some(to)
                &&& forall|id: u32|
                    id != token_id ==> final(self).spec_owner_of(id) == old(self).spec_owner_of(id)
                &&& forall|a: u32| final(self).base.spec_balance(a) == old(self).base.spec_balance(
                    a,
                ) + (if a == to {
                    1int
                } else {
                    0int
                }) - (if a == from {
                    1int
                } else {
                    0int
                })
                &&& final(self).burned@ == old(self).burned@
                &&& final(self).base.approvals@ == old(self).base.approvals@.remove(
                    token_id as u64,
                )
                &&& final(self).base.operators == old(self).base.operators
                &&& final(self).base.counter == old(self).base.counter
                &&& final(self).base.metadata == old(self).base.metadata
            },
    {
        self.update(Some(from), Some(to), token_id)
    }

    /// Transfers `token_id` from `from` to `to` on the authority of
    /// `spender`, who must pass the base ledger's spender-approval
    /// check for the claimed owner.  Authorization for `spender` is the
    /// host's concern and is assumed here.
    pub fn transfer_from(&mut self, spender: u32, from: u32, to: u32, token_id: u32,
        current_ledger: u32) -> (r: Result<(), NonFungibleTokenError>)
        requires
            old(self).wf(),
        ensures
            final(self).wf(),
            r == if !old(self).base.spec_spender_approved(spender, from, token_id,
                current_ledger) {
                Err::<(), NonFungibleTokenError>(NonFungibleTokenError::InsufficientApproval)
            } else {
                match old(self).spec_update_error(from, Some(to), token_id) {
                    Some(e) => Err::<(), NonFungibleTokenError>(e),
                    None => Ok::<(), NonFungibleTokenError>(()),
                }
            },
            r is Err ==> *final(self) == *old(self),
            r is Ok ==> {
                &&& final(self).spec_owner_of(token_id) == Some(to)
                &&& forall|id: u32|
                    id != token_id ==> final(self).spec_owner_of(id) == old(self).spec_owner_of(id)
                &&& forall|a: u32| final(self).base.spec_balance(a) == old(self).base.spec_balance(
                    a,
                ) + (if a == to {
                    1int
                } else {
                    0int
                }) - (if a == from {
                    1int
                } else {
                    0int
                })
                &&& final(self).burned@ == old(self).burned@
                &&& final(self).base.approvals@ == old(self).base.approvals@.remove(
                    token_id as u64,
                )
                &&& final(self).base.operators == old(self).base.operators
                &&& final(self).base.counter == old(self).base.counter
                &&& final(self).base.metadata == old(self).base.metadata
            },
    {
        match self.base.check_spender_approval(spender, from, token_id, current_ledger) {
            Ok(_) => (),
            Err(e) => {
                return Err(e);
            },
        }
        self.update(Some(from), Some(to), token_id)
    }

    /// Destroys `token_id`, inferred to be owned by `from`: removes
    /// its owner record, sets its burn marker, and repairs the
    /// boundary at the successor token.  Authorization for `from` is
    /// the host's concern and is assumed here.
    pub fn burn(&mut self, from: u32, token_id: u32) -> (r: Result<(), NonFungibleTokenError>)
        requires
            old(self).wf(),
        ensures
            final(self).wf(),
            r == (match old(self).spec_update_error(from, None, token_id) {
                Some(e) => Err::<(), NonFungibleTokenError>(e),
                None => Ok::<(), NonFungibleTokenError>(()),
            }),
            r is Err ==> *final(self) == *old(self),
            r is Ok ==> {
                &&& final(self).spec_owner_of(token_id) is None
                &&& final(self).spec_burned(token_id)
                &&& forall|id: u32|
                    id != token_id ==> final(self).spec_owner_of(id) == old(self).spec_owner_of(id)
                &&& forall|a: u32| final(self).base.spec_balance(a) == old(self).base.spec_balance(
                    a,
                ) - (if a == from {
                    1int
                } else {
                    0int
                })
                &&& final(self).burned@ == old(self).burned@.insert(token_id as u64, true)
                &&& final(self).base.owners@ == repaired_map(
                    old(self).base.owners@,
                    old(self).burned@,
                    old(self).base.counter,
                    token_id,
                    from,
                ).remove(token_id as u64)
                &&& final(self).base.approvals@ == old(self).base.approvals@.remove(
                    token_id as u64,
                )
                &&& final(self).base.operators == old(self).base.operators
                &&& final(self).base.counter == old(self).base.counter
                &&& final(self).base.metadata == old(self).base.metadata
            },
    {
        self.update(Some(from), None, token_id)
    }

    /// Destroys `token_id`, inferred to be owned by `from`, on the
    /// authority of `spender`, who must pass the base ledger's
    /// spender-approval check.  Authorization for `spender` is the
    /// host's concern and is assumed here.
    pub fn burn_from(&mut self, spender: u32, from: u32, token_id: u32, current_ledger: u32) -> (r:
        Result<(), NonFungibleTokenError>)
        requires
            old(self).wf(),
        ensures
            final(self).wf(),
            r == if !old(self).base.spec_spender_approved(spender, from, token_id,
                current_ledger) {
                Err::<(), NonFungibleTokenError>(NonFungibleTokenError::InsufficientApproval)
            } else {
                match old(self).spec_update_error(from, None, token_id) {
                    Some(e) => Err::<(), NonFungibleTokenError>(e),
                    None => Ok::<(), NonFungibleTokenError>(()),
                }
            },
            r is Err ==> *final(self) == *old(self),
            r is Ok ==> {
                &&& final(self).spec_owner_of(token_id) is None
                &&& final(self).spec_burned(token_id)
                &&& forall|id: u32|
                    id != token_id ==> final(self).spec_owner_of(id) == old(self).spec_owner_of(id)
                &&& forall|a: u32| final(self).base.spec_balance(a) == old(self).base.spec_balance(
                    a,
                ) - (if a == from {
                    1int
                } else {
                    0int
                })
                &&& final(self).burned@ == old(self).burned@.insert(token_id as u64, true)
                &&& final(self).base.approvals@ == old(self).base.approvals@.remove(
                    token_id as u64,
                )
                &&& final(self).base.operators == old(self).base.operators
                &&& final(self).base.counter == old(self).base.counter
                &&& final(self).base.metadata == old(self).base.metadata
            },
    {
        match self.base.check_spender_approval(spender, from, token_id, current_ledger) {
            Ok(_) => (),
            Err(e) => {
                return Err(e);
            },
        }
        self.update(Some(from), None, token_id)
    }

    /// Approves `approved` to transfer `token_id`: resolves the
    /// inferred owner (`NonExistentToken` for an unminted or burned
    /// token) and writes the approval slot on the authority of
    /// `approver` (the owner or a live operator).  Authorization for
    /// `approver` is the host's concern and is assumed here.
    pub fn approve(
        &mut self,
        approver: u32,
        approved: u32,
        token_id: u32,
        live_until_ledger: u32,
        current_ledger: u32,
    ) -> (r: Result<(), NonFungibleTokenError>)
        requires
            old(self).wf(),
        ensures
            final(self).wf(),
            r == (match old(self).spec_owner_of(token_id) {
                None => Err::<(), NonFungibleTokenError>(NonFungibleTokenError::NonExistentToken),
                Some(owner) => match old(self).base.spec_approve_error(
                    owner,
                    approver,
                    live_until_ledger,
                    current_ledger,
                ) {
                    Some(e) => Err::<(), NonFungibleTokenError>(e),
                    None => Ok::<(), NonFungibleTokenError>(()),
                },
            }),
            r is Err ==> *final(self) == *old(self),
            r is Ok ==> {
                &&& final(self).base.approvals@ == old(self).base.approvals@.insert(
                    token_id as u64,
                    crate::non_fungible::ApprovalData { approved, live_until_ledger },
                )
                &&& final(self).base.owners == old(self).base.owners
                &&& final(self).base.balances == old(self).base.balances
                &&& final(self).base.operators == old(self).base.operators
                &&& final(self).base.counter == old(self).base.counter
                &&& final(self).base.metadata == old(self).base.metadata
                &&& final(self).burned == old(self).burned
            },
    {
        let owner = match self.owner_of(token_id) {
            Ok(o) => o,
            Err(e) => {
                return Err(e);
            },
        };
        self.base.approve_for_owner(owner, approver, approved, token_id, live_until_ledger,
            current_ledger)
    }

    /// Returns the URI of `token_id`: the base URI with the token's
    /// decimal identifier appended.  Fails with `NonExistentToken` for
    /// an unminted or burned token and with `UnsetMetadata` when no
    /// metadata was recorded.
    pub fn token_uri(&self, token_id: u32) -> (r: Result<String, NonFungibleTokenError>)
        requires
            self.wf(),
        ensures
            self.spec_owner_of(token_id) is None ==> r == Err::<String, NonFungibleTokenError>(
                NonFungibleTokenError::NonExistentToken,
            ),
            self.spec_owner_of(token_id) is Some && self.base.metadata is None ==> r == Err::<
                String,
                NonFungibleTokenError,
            >(NonFungibleTokenError::UnsetMetadata),
            self.spec_owner_of(token_id) is Some && self.base.metadata is Some ==> r is Ok
                && r->Ok_0@ == self.base.metadata->0.base_uri@ + spec_dec_digits(token_id as nat),
    {
        match self.owner_of(token_id) {
            Ok(_) => (),
            Err(e) => {
                return Err(e);
            },
        }
        match &self.base.metadata {
            Some(m) => Ok(compose_uri_for_token(m.base_uri.as_str(), token_id)),
            None => Err(NonFungibleTokenError::UnsetMetadata),
        }
    }
}



/// Law: consecutive inference.  When `st1` follows `st0` by batch
/// minting `n` tokens to `owner` and `st2` follows `st1` by
/// transferring token `k` of that batch to `other` — the state
/// changes the contracts of [`Consecutive::batch_mint`] and
/// [`Consecutive::transfer`] describe — then `k` resolves to `other`
/// while its neighbours still resolve to `owner`: the repaired
/// boundary keeps the rest of the batch with the minter.
pub proof fn lemma_consecutive_inference(
    st0: Consecutive,
    st1: Consecutive,
    st2: Consecutive,
    owner: u32,
    other: u32,
    n: u32,
    k: u32,
)
    requires
        st0.base.counter + n <= u32::MAX,
        st0.base.counter <= k < st0.base.counter + n,
        owner != other,
        // After the batch mint:
        st1.base.counter == st0.base.counter + n,
        forall|id: u32|
            st0.base.counter <= id < st0.base.counter + n ==> st1.spec_owner_of(id) == Some(owner),
        // After the transfer of k:
        st2.spec_owner_of(k) == Some(other),
        forall|id: u32| id != k ==> st2.spec_owner_of(id) == st1.spec_owner_of(id),
    ensures
        st2.spec_owner_of(k) == Some(other),
        k + 1 < st0.base.counter + n ==> st2.spec_owner_of((k + 1) as u32) == Some(owner),
        k > st0.base.counter ==> st2.spec_owner_of((k - 1) as u32) == Some(owner),
{
}

} // verus!
