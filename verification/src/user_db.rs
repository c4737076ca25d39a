//! Where a client keeps what it was told of the users.
use vstd::prelude::*;
use crate::id::UserId;
use crate::user::User;

verus! {

/// A record of users. An embedder that has no use for it takes the unit type,
/// which keeps nothing.
pub trait UserDb: Sized {
    /// The users of the record, each with what is known of them.
    spec fn users(&self) -> Map<UserId, User>;

    /// Whether the record keeps what it is told.
    spec fn keeps() -> bool;

    fn insert(&mut self, user_id: UserId, user: User)
        ensures
            final(self).users() == (if Self::keeps() {
                old(self).users().insert(user_id, user)
            } else {
                old(self).users()
            }),
    ;

    fn remove(&mut self, user_id: &UserId)
        ensures
            final(self).users() == old(self).users().remove(*user_id),
    ;
}

impl UserDb for () {
    open spec fn users(&self) -> Map<UserId, User> {
        Map::empty()
    }

    open spec fn keeps() -> bool {
        false
    }

    fn insert(&mut self, user_id: UserId, user: User) {
    }

    fn remove(&mut self, user_id: &UserId) {
        assert(Map::<UserId, User>::empty().remove(*user_id) =~= Map::<UserId, User>::empty());
    }
}

/// The users of a list of entries: of two entries for one user the later counts.
pub open spec fn listed(entries: Seq<(UserId, User)>) -> Map<UserId, User>
    decreases entries.len(),
{
    if entries.len() == 0 {
        Map::empty()
    } else {
        listed(entries.drop_last()).insert(entries.last().0, entries.last().1)
    }
}

/// A list without an entry for `user_id` knows nothing of that user.
pub proof fn lemma_listed_absent(entries: Seq<(UserId, User)>, user_id: UserId)
    requires
        forall|i: int| 0 <= i < entries.len() ==> (#[trigger] entries[i]).0 != user_id,
    ensures
        !listed(entries).dom().contains(user_id),
        listed(entries).remove(user_id) == listed(entries),
    decreases entries.len(),
{
    if entries.len() > 0 {
        assert forall|i: int| 0 <= i < entries.drop_last().len() implies (#[trigger] entries.drop_last()[i]).0 != user_id by {
            assert(entries.drop_last()[i] == entries[i]);
        }
        lemma_listed_absent(entries.drop_last(), user_id);
        assert(entries.last() == entries[entries.len() - 1]);
    }
    assert(listed(entries).remove(user_id) =~= listed(entries));
}

/// A list without one of its entries for `user_id` knows of the other users
/// what it knew.
pub proof fn lemma_listed_remove_at(entries: Seq<(UserId, User)>, i: int, user_id: UserId)
    requires
        0 <= i < entries.len(),
        entries[i].0 == user_id,
    ensures
        listed(entries.remove(i)).remove(user_id) == listed(entries).remove(user_id),
    decreases entries.len(),
{
    let last = entries.last();
    if i == entries.len() - 1 {
        assert(entries.remove(i) =~= entries.drop_last());
        assert(listed(entries.drop_last()).remove(user_id) =~= listed(entries).remove(user_id));
    } else {
        let shorter = entries.remove(i);
        assert(shorter.drop_last() =~= entries.drop_last().remove(i));
        assert(shorter.last() == last);
        lemma_listed_remove_at(entries.drop_last(), i, user_id);
        let m1 = listed(shorter.drop_last());
        let m2 = listed(entries.drop_last());
        assert(m1.remove(user_id) == m2.remove(user_id));
        assert forall|k: UserId| k != user_id implies m1.dom().contains(k) == m2.dom().contains(k) && (m1.dom().contains(k)
            ==> m1[k] == m2[k]) by {
            assert(m1.remove(user_id).dom().contains(k) == m1.dom().contains(k));
            assert(m2.remove(user_id).dom().contains(k) == m2.dom().contains(k));
            if m1.dom().contains(k) {
                assert(m1.remove(user_id)[k] == m1[k]);
                assert(m2.remove(user_id)[k] == m2[k]);
            }
        }
        assert(listed(shorter) == m1.insert(last.0, last.1));
        assert(listed(entries) == m2.insert(last.0, last.1));
        let lhs = listed(shorter).remove(user_id);
        let rhs = listed(entries).remove(user_id);
        assert forall|k: UserId| #[trigger] lhs.dom().contains(k) == rhs.dom().contains(k) && (lhs.dom().contains(k) ==> lhs[k]
            == rhs[k]) by {
            if k != user_id && k != last.0 {
                assert(m1.remove(user_id).dom().contains(k) == m1.dom().contains(k));
                assert(m2.remove(user_id).dom().contains(k) == m2.dom().contains(k));
                if m1.dom().contains(k) {
                    assert(m1.remove(user_id)[k] == m1[k]);
                    assert(m2.remove(user_id)[k] == m2[k]);
                }
            }
        }
        assert(lhs =~= rhs);
    }
}

/// The record that keeps its users in a list.
impl UserDb for Vec<(UserId, User)> {
    open spec fn users(&self) -> Map<UserId, User> {
        listed(self@)
    }

    open spec fn keeps() -> bool {
        true
    }

    fn insert(&mut self, user_id: UserId, user: User) {
        let ghost before = self@;
        self.push((user_id, user));
        assert(self@.drop_last() =~= before);
    }

    fn remove(&mut self, user_id: &UserId) {
        let mut i: usize = 0;
        while i < self.len()
            invariant
                i <= self@.len(),
                listed(self@).remove(*user_id) == listed(old(self)@).remove(*user_id),
                forall|k: int| 0 <= k < i ==> (#[trigger] self@[k]).0 != *user_id,
            decreases self@.len() - i,
        {
            if self[i].0 == *user_id {
                proof {
                    lemma_listed_remove_at(self@, i as int, *user_id);
                }
                self.remove(i);
            } else {
                i = i + 1;
            }
        }
        proof {
            lemma_listed_absent(self@, *user_id);
        }
    }
}

} // verus!
