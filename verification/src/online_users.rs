//! The online-players roster a client renders: everyone currently online
//! except the viewer.

use vstd::prelude::*;
use crate::messages::UserProfile;

verus! {

/// `users` with every entry named `own` removed, in order.
pub open spec fn without_user(users: Seq<UserProfile>, own: Seq<char>) -> Seq<UserProfile>
    decreases users.len(),
{
    if users.len() == 0 {
        Seq::empty()
    } else {
        let rest = without_user(users.drop_last(), own);
        if users.last().username@ == own {
            rest
        } else {
            rest.push(users.last())
        }
    }
}

/// Filters the viewer out of the online-user list. An anonymous viewer
/// (no username) sees everyone.
pub fn online_players(users: &Vec<UserProfile>, own_username: Option<&String>) -> (r: Vec<
    UserProfile,
>)
    ensures
        match own_username {
            None => r@ == users@,
            Some(name) => r@ == without_user(users@, name@),
        },
{
    let mut r: Vec<UserProfile> = Vec::new();
    let mut i: usize = 0;
    match own_username {
        None => {
            while i < users.len()
                invariant
                    0 <= i <= users@.len(),
                    r@ == users@.take(i as int),
                decreases users@.len() - i,
            {
                proof {
                    assert(users@.take(i as int + 1).drop_last() =~= users@.take(i as int));
                    assert(users@.take(i as int + 1).last() == users@[i as int]);
                }
                r.push(users[i].duplicate());
                i += 1;
            }
            proof {
                assert(users@.take(users@.len() as int) =~= users@);
            }
        },
        Some(name) => {
            while i < users.len()
                invariant
                    0 <= i <= users@.len(),
                    r@ == without_user(users@.take(i as int), name@),
                decreases users@.len() - i,
            {
                proof {
                    assert(users@.take(i as int + 1).drop_last() =~= users@.take(i as int));
                    assert(users@.take(i as int + 1).last() == users@[i as int]);
                }
                if !users[i].username.eq(name) {
                    r.push(users[i].duplicate());
                }
                i += 1;
            }
            proof {
                assert(users@.take(users@.len() as int) =~= users@);
            }
        },
    }
    r
}

} // verus!
