//! The global laws of the ledger.
//!
//! The central invariant ties the three books together: for every address,
//! the recorded total delegation equals the native deposit of its user
//! record plus whatever the address still has queued for unbonding. Deposit
//! and batch draining preserve it unconditionally; a withdraw preserves it
//! when the chain reports no slashing, because only then does the payout
//! equal the recorded deposit. At any quiescent point — an empty unbond
//! queue — the invariant makes the summed delegation ledger equal the
//! summed native deposits of all users.

use vstd::prelude::*;
use crate::config::{spec_tier_of, Config};
use crate::config::{lemma_tier_of_bounds, lemma_tier_of_monotone};
use crate::deposit::lemma_user_tier_fixpoint;
use crate::queue::spec_queue_total_for;
use crate::state::{
    delegation_index,
    delegations_unique,
    has_delegation,
    has_user,
    spec_delegated_of,
    spec_total_staked,
    spec_user_of,
    user_index,
    user_wf,
    users_unique,
    DelegatedEntry,
    State,
    UserEntry,
    UserInfo,
    UserUnbond,
};
use vstd::arithmetic::div_mod::lemma_div_by_multiple;

verus! {

/// The native deposit recorded for an address, or zero.
pub open spec fn spec_user_orai(s: State, a: Seq<char>) -> int {
    spec_user_of(s.users@, a, s.config.spec_min_tier()).orai_deposit as int
}

/// For every address, the delegation ledger holds exactly the user's
/// native deposit plus the amounts it has queued for unbonding.
pub open spec fn delegation_invariant(s: State) -> bool {
    forall|a: Seq<char>| #[trigger]
        spec_delegated_of(s.delegations@, a) == spec_user_orai(s, a) + spec_queue_total_for(
            s.unbonds@,
            a,
        )
}

/// A deposit never worsens a user's tier: the tier of the raised USD total
/// is at most (numerically) the user's current tier. And when it is
/// strictly better, the record snapped to the new tier's threshold is again
/// well formed, so `usd_deposit` always equals the tier's exact threshold.
pub proof fn lemma_deposit_tier_law(
    c: Config,
    u: UserInfo,
    usd_received: u128,
    timestamp: u64,
    orai_deposit: u128,
)
    requires
        c.deposits_wf(),
        user_wf(c, u),
    ensures
        spec_tier_of(c.usd_deposits@, u.usd_deposit + usd_received) <= u.tier,
        ({
            let t = spec_tier_of(c.usd_deposits@, u.usd_deposit + usd_received);
            t < u.tier ==> user_wf(
                c,
                (UserInfo {
                    tier: t as u8,
                    timestamp,
                    usd_deposit: c.usd_deposits@[t - 1],
                    orai_deposit,
                }),
            )
        }),
{
    lemma_user_tier_fixpoint(c, u);
    lemma_tier_of_monotone(c.usd_deposits@, u.usd_deposit as int, u.usd_deposit + usd_received);
    lemma_tier_of_bounds(c.usd_deposits@, u.usd_deposit + usd_received);
    let t = spec_tier_of(c.usd_deposits@, u.usd_deposit + usd_received);
    if t < u.tier {
        crate::config::lemma_tier_of_inverse(c.usd_deposits@, t);
    }
}

/// Appending one more queue entry adds its amount to its own address's
/// pending total and nothing to any other.
pub proof fn lemma_total_for_push(q: Seq<UserUnbond>, e: UserUnbond, a: Seq<char>)
    ensures
        spec_queue_total_for(q.push(e), a) == spec_queue_total_for(q, a) + (if e.address@ == a {
            e.amount as int
        } else {
            0
        }),
{
    assert(q.push(e).drop_last() =~= q);
}

/// Pending totals are never negative.
pub proof fn lemma_total_for_nonneg(q: Seq<UserUnbond>, a: Seq<char>)
    ensures
        0 <= spec_queue_total_for(q, a),
    decreases q.len(),
{
    if q.len() > 0 {
        lemma_total_for_nonneg(q.drop_last(), a);
    }
}

/// Replacing or inserting one user record changes exactly that address's
/// lookup and keeps the ledger's keys distinct.
proof fn lemma_user_of_pointwise(
    pre: Seq<UserEntry>,
    post: Seq<UserEntry>,
    a0: Seq<char>,
    new_info: UserInfo,
    min_tier: int,
)
    requires
        users_unique(pre),
        has_user(pre, a0) ==> post.len() == pre.len() && (forall|i: int|
            0 <= i < pre.len() && i != user_index(pre, a0) ==> (#[trigger] post[i]).address@
                == pre[i].address@ && post[i].info == pre[i].info) && post[user_index(
            pre,
            a0,
        )].address@ == a0 && post[user_index(pre, a0)].info == new_info,
        !has_user(pre, a0) ==> post.len() == pre.len() + 1 && (forall|i: int|
            0 <= i < pre.len() ==> (#[trigger] post[i]).address@ == pre[i].address@
                && post[i].info == pre[i].info) && post[pre.len() as int].address@ == a0
            && post[pre.len() as int].info == new_info,
    ensures
        users_unique(post),
        forall|a: Seq<char>| #[trigger]
            spec_user_of(post, a, min_tier) == (if a == a0 {
                new_info
            } else {
                spec_user_of(pre, a, min_tier)
            }),
{
    if has_user(pre, a0) {
        let si = user_index(pre, a0);
        assert(pre[si].address@ == a0);
        assert(forall|i: int| 0 <= i < post.len() ==> (#[trigger] post[i]).address@
            == pre[i].address@);
        assert forall|a: Seq<char>| #[trigger]
            spec_user_of(post, a, min_tier) == (if a == a0 {
                new_info
            } else {
                spec_user_of(pre, a, min_tier)
            }) by {
            if has_user(post, a) {
                let i2 = user_index(post, a);
                assert(post[i2].address@ == a);
                assert(pre[i2].address@ == a);
                assert(has_user(pre, a));
                let i1 = user_index(pre, a);
                if i1 != i2 {
                    assert(pre[i1].address@ != pre[i2].address@);
                }
                if a == a0 && i2 != si {
                    assert(pre[i2].address@ != pre[si].address@);
                }
            } else {
                if has_user(pre, a) {
                    let i1 = user_index(pre, a);
                    assert(post[i1].address@ == a);
                }
            }
        }
    } else {
        assert(forall|i: int| 0 <= i < pre.len() ==> (#[trigger] pre[i]).address@ != a0);
        assert forall|i: int, j: int| 0 <= i < j < post.len() implies post[i].address@
            != post[j].address@ by {
            if j < pre.len() {
                assert(post[i].address@ == pre[i].address@);
                assert(post[j].address@ == pre[j].address@);
            } else {
                assert(post[i].address@ == pre[i].address@);
                assert(post[j].address@ == a0);
            }
        }
        assert forall|a: Seq<char>| #[trigger]
            spec_user_of(post, a, min_tier) == (if a == a0 {
                new_info
            } else {
                spec_user_of(pre, a, min_tier)
            }) by {
            if a == a0 {
                assert(post[pre.len() as int].address@ == a0);
                assert(has_user(post, a0));
                let i2 = user_index(post, a0);
                if i2 != pre.len() {
                    assert(post[i2].address@ == pre[i2].address@);
                }
            } else {
                if has_user(post, a) {
                    let i2 = user_index(post, a);
                    assert(post[i2].address@ == a);
                    assert(i2 < pre.len());
                    assert(pre[i2].address@ == a);
                    let i1 = user_index(pre, a);
                    if i1 != i2 {
                        assert(pre[i1].address@ != pre[i2].address@);
                    }
                } else {
                    if has_user(pre, a) {
                        let i1 = user_index(pre, a);
                        assert(post[i1].address@ == a);
                    }
                }
            }
        }
    }
}

/// Replacing or inserting one delegation entry changes exactly that
/// address's lookup and keeps the ledger's keys distinct.
proof fn lemma_delegated_of_pointwise(
    pre: Seq<DelegatedEntry>,
    post: Seq<DelegatedEntry>,
    a0: Seq<char>,
    td_new: u128,
)
    requires
        delegations_unique(pre),
        has_delegation(pre, a0) ==> post.len() == pre.len() && (forall|i: int|
            0 <= i < pre.len() && i != delegation_index(pre, a0) ==> (#[trigger] post[i]).address@
                == pre[i].address@ && post[i].amount == pre[i].amount) && post[delegation_index(
            pre,
            a0,
        )].address@ == a0 && post[delegation_index(pre, a0)].amount == td_new,
        !has_delegation(pre, a0) ==> post.len() == pre.len() + 1 && (forall|i: int|
            0 <= i < pre.len() ==> (#[trigger] post[i]).address@ == pre[i].address@
                && post[i].amount == pre[i].amount) && post[pre.len() as int].address@ == a0
            && post[pre.len() as int].amount == td_new,
    ensures
        delegations_unique(post),
        forall|a: Seq<char>| #[trigger]
            spec_delegated_of(post, a) == (if a == a0 {
                td_new
            } else {
                spec_delegated_of(pre, a)
            }),
{
    if has_delegation(pre, a0) {
        let si = delegation_index(pre, a0);
        assert(pre[si].address@ == a0);
        assert(forall|i: int| 0 <= i < post.len() ==> (#[trigger] post[i]).address@
            == pre[i].address@);
        assert forall|a: Seq<char>| #[trigger]
            spec_delegated_of(post, a) == (if a == a0 {
                td_new
            } else {
                spec_delegated_of(pre, a)
            }) by {
            if has_delegation(post, a) {
                let i2 = delegation_index(post, a);
                assert(post[i2].address@ == a);
                assert(pre[i2].address@ == a);
                assert(has_delegation(pre, a));
                let i1 = delegation_index(pre, a);
                if i1 != i2 {
                    assert(pre[i1].address@ != pre[i2].address@);
                }
                if a == a0 && i2 != si {
                    assert(pre[i2].address@ != pre[si].address@);
                }
            } else {
                if has_delegation(pre, a) {
                    let i1 = delegation_index(pre, a);
                    assert(post[i1].address@ == a);
                }
            }
        }
    } else {
        assert(forall|i: int| 0 <= i < pre.len() ==> (#[trigger] pre[i]).address@ != a0);
        assert forall|i: int, j: int| 0 <= i < j < post.len() implies post[i].address@
            != post[j].address@ by {
            if j < pre.len() {
                assert(post[i].address@ == pre[i].address@);
                assert(post[j].address@ == pre[j].address@);
            } else {
                assert(post[i].address@ == pre[i].address@);
                assert(post[j].address@ == a0);
            }
        }
        assert forall|a: Seq<char>| #[trigger]
            spec_delegated_of(post, a) == (if a == a0 {
                td_new
            } else {
                spec_delegated_of(pre, a)
            }) by {
            if a == a0 {
                assert(post[pre.len() as int].address@ == a0);
                assert(has_delegation(post, a0));
                let i2 = delegation_index(post, a0);
                if i2 != pre.len() {
                    assert(post[i2].address@ == pre[i2].address@);
                }
            } else {
                if has_delegation(post, a) {
                    let i2 = delegation_index(post, a);
                    assert(post[i2].address@ == a);
                    assert(i2 < pre.len());
                    assert(pre[i2].address@ == a);
                    let i1 = delegation_index(pre, a);
                    if i1 != i2 {
                        assert(pre[i1].address@ != pre[i2].address@);
                    }
                } else {
                    if has_delegation(pre, a) {
                        let i1 = delegation_index(pre, a);
                        assert(post[i1].address@ == a);
                    }
                }
            }
        }
    }
}

/// A successful deposit preserves the delegation invariant: the sender's
/// record now holds `new_info`, and the sender's ledger total moved by
/// exactly the change of the native deposit.
pub proof fn lemma_deposit_preserves_delegation_invariant(
    pre: State,
    post: State,
    sender: String,
    new_info: UserInfo,
    td_new: u128,
)
    requires
        pre.wf(),
        delegation_invariant(pre),
        post.config == pre.config,
        post.unbonds@ == pre.unbonds@,
        td_new == spec_delegated_of(pre.delegations@, sender@) + new_info.orai_deposit
            - spec_user_of(pre.users@, sender@, pre.config.spec_min_tier()).orai_deposit,
        (if has_user(pre.users@, sender@) {
            post.users@ == pre.users@.update(
                user_index(pre.users@, sender@),
                (UserEntry {
                    address: pre.users@[user_index(pre.users@, sender@)].address,
                    info: new_info,
                }),
            )
        } else {
            post.users@ == pre.users@.push((UserEntry { address: sender, info: new_info }))
        }),
        (if has_delegation(pre.delegations@, sender@) {
            post.delegations@ == pre.delegations@.update(
                delegation_index(pre.delegations@, sender@),
                (DelegatedEntry {
                    address: pre.delegations@[delegation_index(pre.delegations@, sender@)].address,
                    amount: td_new,
                }),
            )
        } else {
            post.delegations@ == pre.delegations@.push(
                (DelegatedEntry { address: sender, amount: td_new }),
            )
        }),
    ensures
        delegation_invariant(post),
{
    lemma_user_of_pointwise(
        pre.users@,
        post.users@,
        sender@,
        new_info,
        pre.config.spec_min_tier(),
    );
    lemma_delegated_of_pointwise(pre.delegations@, post.delegations@, sender@, td_new);
    assert forall|a: Seq<char>| #[trigger]
        spec_delegated_of(post.delegations@, a) == spec_user_orai(post, a) + spec_queue_total_for(
            post.unbonds@,
            a,
        ) by {
        assert(spec_delegated_of(pre.delegations@, a) == spec_user_orai(pre, a)
            + spec_queue_total_for(pre.unbonds@, a));
    }
}

/// An unslashed payout is exactly the recorded deposit: when the chain
/// reports as much bonded as the ledger records, the proportional payout
/// formula returns the full amount.
pub proof fn lemma_unslashed_payout(amount: int, staked: int)
    requires
        0 <= amount,
        0 < staked,
    ensures
        (amount * staked) / staked == amount,
{
    lemma_div_by_multiple(amount, staked);
}

/// Enqueueing a withdrawal preserves the delegation invariant, provided
/// the payout equals the sender's recorded native deposit — which the
/// proportional formula yields exactly when the chain reports no slashing.
/// A slashed report breaks this: the difference stays in the ledger.
pub proof fn lemma_withdraw_enqueue_preserves_delegation_invariant(
    pre: State,
    post: State,
    sender: String,
    payout: u128,
    now: u64,
)
    requires
        pre.wf(),
        delegation_invariant(pre),
        payout == spec_user_of(pre.users@, sender@, pre.config.spec_min_tier()).orai_deposit,
        post.config == pre.config,
        post.delegations@ == pre.delegations@,
        post.unbonds@ == pre.unbonds@.push(
            (UserUnbond { address: sender, amount: payout, timestamp: now }),
        ),
        (if has_user(pre.users@, sender@) {
            post.users@ == pre.users@.remove(user_index(pre.users@, sender@))
        } else {
            post.users@ == pre.users@
        }),
    ensures
        delegation_invariant(post),
{
    let min = pre.config.spec_min_tier();
    let e = UserUnbond { address: sender, amount: payout, timestamp: now };
    assert forall|a: Seq<char>| #[trigger]
        spec_delegated_of(post.delegations@, a) == spec_user_orai(post, a) + spec_queue_total_for(
            post.unbonds@,
            a,
        ) by {
        assert(spec_delegated_of(pre.delegations@, a) == spec_user_orai(pre, a)
            + spec_queue_total_for(pre.unbonds@, a));
        lemma_total_for_push(pre.unbonds@, e, a);
        if has_user(pre.users@, sender@) {
            let si = user_index(pre.users@, sender@);
            assert(pre.users@[si].address@ == sender@);
            pre.users@.remove_ensures(si);
            if a == sender@ {
                assert forall|i: int| 0 <= i < post.users@.len() implies (
                #[trigger] post.users@[i]).address@ != sender@ by {
                    if i < si {
                        assert(post.users@[i] == pre.users@[i]);
                        assert(pre.users@[i].address@ != pre.users@[si].address@);
                    } else {
                        assert(post.users@[i] == pre.users@[i + 1]);
                        assert(pre.users@[si].address@ != pre.users@[i + 1].address@);
                    }
                }
                assert(!has_user(post.users@, a));
            } else {
                if has_user(pre.users@, a) {
                    let i1 = user_index(pre.users@, a);
                    assert(pre.users@[i1].address@ == a);
                    let i2 = if i1 < si {
                        i1
                    } else {
                        i1 - 1
                    };
                    assert(post.users@[i2] == pre.users@[i1]);
                    assert(has_user(post.users@, a));
                    let i3 = user_index(post.users@, a);
                    let i4 = if i3 < si {
                        i3
                    } else {
                        i3 + 1
                    };
                    assert(post.users@[i3] == pre.users@[i4]);
                    assert(pre.users@[i4].address@ == a);
                    if i4 != i1 {
                        assert(pre.users@[i4].address@ != pre.users@[i1].address@);
                    }
                } else {
                    if has_user(post.users@, a) {
                        let i3 = user_index(post.users@, a);
                        let i4 = if i3 < si {
                            i3
                        } else {
                            i3 + 1
                        };
                        assert(post.users@[i3] == pre.users@[i4]);
                        assert(has_user(pre.users@, a));
                    }
                }
            }
        } else {
            if a == sender@ {
                assert(spec_user_orai(pre, a) == 0);
            }
        }
    }
}

/// Draining the whole queue preserves the delegation invariant: each
/// address's ledger total drops by exactly its queued amounts, and nothing
/// is pending afterwards.
pub proof fn lemma_drain_preserves_delegation_invariant(pre: State, post: State)
    requires
        pre.wf(),
        delegation_invariant(pre),
        post.config == pre.config,
        post.users@ == pre.users@,
        post.unbonds@.len() == 0,
        post.delegations@.len() == pre.delegations@.len(),
        forall|i: int|
            0 <= i < pre.delegations@.len() ==> (#[trigger] post.delegations@[i]).address@
                == pre.delegations@[i].address@ && post.delegations@[i].amount
                == pre.delegations@[i].amount - spec_queue_total_for(
                pre.unbonds@,
                pre.delegations@[i].address@,
            ),
    ensures
        delegation_invariant(post),
{
    assert forall|a: Seq<char>| #[trigger]
        spec_delegated_of(post.delegations@, a) == spec_user_orai(post, a) + spec_queue_total_for(
            post.unbonds@,
            a,
        ) by {
        assert(spec_delegated_of(pre.delegations@, a) == spec_user_orai(pre, a)
            + spec_queue_total_for(pre.unbonds@, a));
        assert(post.unbonds@ =~= Seq::<UserUnbond>::empty());
        lemma_total_for_nonneg(pre.unbonds@, a);
        if has_delegation(pre.delegations@, a) {
            let i1 = delegation_index(pre.delegations@, a);
            assert(pre.delegations@[i1].address@ == a);
            assert(post.delegations@[i1].address@ == a);
            assert(has_delegation(post.delegations@, a));
            let i2 = delegation_index(post.delegations@, a);
            assert(pre.delegations@[i2].address@ == a);
            if i1 != i2 {
                assert(pre.delegations@[i1].address@ != pre.delegations@[i2].address@);
            }
        } else {
            if has_delegation(post.delegations@, a) {
                let i2 = delegation_index(post.delegations@, a);
                assert(pre.delegations@[i2].address@ == a);
            }
        }
    }
}

/// Sum of the native deposits of all user records.
pub open spec fn spec_sum_orai(users: Seq<UserEntry>) -> int
    decreases users.len(),
{
    if users.len() == 0 {
        0
    } else {
        spec_sum_orai(users.drop_last()) + users.last().info.orai_deposit
    }
}

/// Removing one delegation entry leaves every other address's lookup
/// unchanged, and that address with nothing.
proof fn lemma_delegated_of_remove(s: Seq<DelegatedEntry>, i0: int)
    requires
        delegations_unique(s),
        0 <= i0 < s.len(),
    ensures
        delegations_unique(s.remove(i0)),
        spec_delegated_of(s.remove(i0), s[i0].address@) == 0,
        forall|a: Seq<char>|
            a != s[i0].address@ ==> #[trigger] spec_delegated_of(s.remove(i0), a)
                == spec_delegated_of(s, a),
{
    let s2 = s.remove(i0);
    s.remove_ensures(i0);
    assert forall|x: int, y: int| 0 <= x < y < s2.len() implies s2[x].address@
        != s2[y].address@ by {
        let x1 = if x < i0 {
            x
        } else {
            x + 1
        };
        let y1 = if y < i0 {
            y
        } else {
            y + 1
        };
        assert(s2[x] == s[x1]);
        assert(s2[y] == s[y1]);
    }
    assert forall|j: int| 0 <= j < s2.len() implies (#[trigger] s2[j]).address@
        != s[i0].address@ by {
        let j1 = if j < i0 {
            j
        } else {
            j + 1
        };
        assert(s2[j] == s[j1]);
        if j1 != i0 {
            assert(s[j1].address@ != s[i0].address@);
        }
    }
    assert(!has_delegation(s2, s[i0].address@));
    assert forall|a: Seq<char>|
        a != s[i0].address@ implies #[trigger] spec_delegated_of(s2, a) == spec_delegated_of(
        s,
        a,
    ) by {
        if has_delegation(s, a) {
            let j = delegation_index(s, a);
            assert(s[j].address@ == a);
            let j2 = if j < i0 {
                j
            } else {
                j - 1
            };
            assert(s2[j2] == s[j]);
            assert(has_delegation(s2, a));
            let k = delegation_index(s2, a);
            let k1 = if k < i0 {
                k
            } else {
                k + 1
            };
            assert(s2[k] == s[k1]);
            if k1 != j {
                assert(s[k1].address@ != s[j].address@);
            }
        } else {
            if has_delegation(s2, a) {
                let k = delegation_index(s2, a);
                let k1 = if k < i0 {
                    k
                } else {
                    k + 1
                };
                assert(s2[k] == s[k1]);
                assert(has_delegation(s, a));
            }
        }
    }
}

/// Removing one user record leaves every other address's lookup unchanged,
/// and that address with the default record.
proof fn lemma_user_of_remove(s: Seq<UserEntry>, i0: int, min_tier: int)
    requires
        users_unique(s),
        0 <= i0 < s.len(),
    ensures
        users_unique(s.remove(i0)),
        spec_user_of(s.remove(i0), s[i0].address@, min_tier).orai_deposit == 0,
        forall|a: Seq<char>|
            a != s[i0].address@ ==> #[trigger] spec_user_of(s.remove(i0), a, min_tier)
                == spec_user_of(s, a, min_tier),
{
    let s2 = s.remove(i0);
    s.remove_ensures(i0);
    assert forall|x: int, y: int| 0 <= x < y < s2.len() implies s2[x].address@
        != s2[y].address@ by {
        let x1 = if x < i0 {
            x
        } else {
            x + 1
        };
        let y1 = if y < i0 {
            y
        } else {
            y + 1
        };
        assert(s2[x] == s[x1]);
        assert(s2[y] == s[y1]);
    }
    assert forall|j: int| 0 <= j < s2.len() implies (#[trigger] s2[j]).address@
        != s[i0].address@ by {
        let j1 = if j < i0 {
            j
        } else {
            j + 1
        };
        assert(s2[j] == s[j1]);
        if j1 != i0 {
            assert(s[j1].address@ != s[i0].address@);
        }
    }
    assert(!has_user(s2, s[i0].address@));
    assert forall|a: Seq<char>|
        a != s[i0].address@ implies #[trigger] spec_user_of(s2, a, min_tier) == spec_user_of(
        s,
        a,
        min_tier,
    ) by {
        if has_user(s, a) {
            let j = user_index(s, a);
            assert(s[j].address@ == a);
            let j2 = if j < i0 {
                j
            } else {
                j - 1
            };
            assert(s2[j2] == s[j]);
            assert(has_user(s2, a));
            let k = user_index(s2, a);
            let k1 = if k < i0 {
                k
            } else {
                k + 1
            };
            assert(s2[k] == s[k1]);
            if k1 != j {
                assert(s[k1].address@ != s[j].address@);
            }
        } else {
            if has_user(s2, a) {
                let k = user_index(s2, a);
                let k1 = if k < i0 {
                    k
                } else {
                    k + 1
                };
                assert(s2[k] == s[k1]);
                assert(has_user(s, a));
            }
        }
    }
}

/// Sum of native deposits after removing one record.
proof fn lemma_sum_orai_remove(s: Seq<UserEntry>, i: int)
    requires
        0 <= i < s.len(),
    ensures
        spec_sum_orai(s.remove(i)) == spec_sum_orai(s) - s[i].info.orai_deposit,
    decreases s.len(),
{
    if i == s.len() - 1 {
        assert(s.remove(i) =~= s.drop_last());
    } else {
        assert(s.remove(i).drop_last() =~= s.drop_last().remove(i));
        assert(s.remove(i).last() == s.last());
        lemma_sum_orai_remove(s.drop_last(), i);
    }
}

/// Sum of the delegation ledger after removing one entry.
proof fn lemma_total_staked_remove(s: Seq<DelegatedEntry>, i: int)
    requires
        0 <= i < s.len(),
    ensures
        spec_total_staked(s.remove(i)) == spec_total_staked(s) - s[i].amount,
    decreases s.len(),
{
    if i == s.len() - 1 {
        assert(s.remove(i) =~= s.drop_last());
    } else {
        assert(s.remove(i).drop_last() =~= s.drop_last().remove(i));
        assert(s.remove(i).last() == s.last());
        lemma_total_staked_remove(s.drop_last(), i);
    }
}

/// When the two books agree address for address, their sums agree.
proof fn lemma_sums_pointwise(dels: Seq<DelegatedEntry>, users: Seq<UserEntry>, min_tier: int)
    requires
        delegations_unique(dels),
        users_unique(users),
        forall|a: Seq<char>| #[trigger]
            spec_delegated_of(dels, a) as int == spec_user_of(users, a, min_tier).orai_deposit,
    ensures
        spec_total_staked(dels) == spec_sum_orai(users),
    decreases dels.len() + users.len(),
{
    if dels.len() > 0 {
        let i0 = dels.len() - 1;
        let a0 = dels[i0].address@;
        assert(has_delegation(dels, a0));
        let j0 = delegation_index(dels, a0);
        if j0 != i0 {
            assert(dels[j0].address@ != dels[i0].address@);
        }
        assert(spec_delegated_of(dels, a0) == dels[i0].amount);
        lemma_delegated_of_remove(dels, i0);
        assert(dels.remove(i0) =~= dels.drop_last());
        lemma_total_staked_remove(dels, i0);
        if has_user(users, a0) {
            let u0 = user_index(users, a0);
            assert(users[u0].address@ == a0);
            assert(spec_user_of(users, a0, min_tier) == users[u0].info);
            lemma_user_of_remove(users, u0, min_tier);
            lemma_sum_orai_remove(users, u0);
            assert forall|a: Seq<char>| #[trigger]
                spec_delegated_of(dels.drop_last(), a) as int == spec_user_of(
                    users.remove(u0),
                    a,
                    min_tier,
                ).orai_deposit by {
                if a == a0 {
                } else {
                    assert(spec_delegated_of(dels, a) as int == spec_user_of(
                        users,
                        a,
                        min_tier,
                    ).orai_deposit);
                }
            }
            lemma_sums_pointwise(dels.drop_last(), users.remove(u0), min_tier);
        } else {
            assert(spec_user_of(users, a0, min_tier).orai_deposit == 0);
            assert(dels[i0].amount == 0);
            assert forall|a: Seq<char>| #[trigger]
                spec_delegated_of(dels.drop_last(), a) as int == spec_user_of(
                    users,
                    a,
                    min_tier,
                ).orai_deposit by {
                if a == a0 {
                } else {
                    assert(spec_delegated_of(dels, a) as int == spec_user_of(
                        users,
                        a,
                        min_tier,
                    ).orai_deposit);
                }
            }
            lemma_sums_pointwise(dels.drop_last(), users, min_tier);
        }
    } else if users.len() > 0 {
        let u0 = users.len() - 1;
        let a0 = users[u0].address@;
        assert(has_user(users, a0));
        let j0 = user_index(users, a0);
        if j0 != u0 {
            assert(users[j0].address@ != users[u0].address@);
        }
        assert(spec_user_of(users, a0, min_tier) == users[u0].info);
        assert(!has_delegation(dels, a0));
        assert(spec_delegated_of(dels, a0) == 0);
        assert(users[u0].info.orai_deposit == 0);
        lemma_user_of_remove(users, u0, min_tier);
        lemma_sum_orai_remove(users, u0);
        assert(users.remove(u0) =~= users.drop_last());
        assert forall|a: Seq<char>| #[trigger]
            spec_delegated_of(dels, a) as int == spec_user_of(
                users.drop_last(),
                a,
                min_tier,
            ).orai_deposit by {
            if a == a0 {
            } else {
                assert(spec_delegated_of(dels, a) as int == spec_user_of(
                    users,
                    a,
                    min_tier,
                ).orai_deposit);
            }
        }
        lemma_sums_pointwise(dels, users.drop_last(), min_tier);
    }
}

/// At any quiescent point — nothing pending in the unbond queue — the
/// summed delegation ledger equals the summed native deposits of all
/// users.
pub proof fn lemma_quiescent_sums(s: State)
    requires
        s.wf(),
        delegation_invariant(s),
        s.unbonds@.len() == 0,
    ensures
        spec_total_staked(s.delegations@) == spec_sum_orai(s.users@),
{
    assert forall|a: Seq<char>| #[trigger]
        spec_delegated_of(s.delegations@, a) as int == spec_user_of(
            s.users@,
            a,
            s.config.spec_min_tier(),
        ).orai_deposit by {
        assert(spec_delegated_of(s.delegations@, a) == spec_user_orai(s, a)
            + spec_queue_total_for(s.unbonds@, a));
    }
    lemma_sums_pointwise(s.delegations@, s.users@, s.config.spec_min_tier());
}

} // verus!
