//! The secrets of a team, and the answer to the challenge on their sum.
//!
//! Each player of a team is told a secret from time to time. The server
//! challenges the team to give the sum of the last secret of every player,
//! reduced by a modulus.

use vstd::prelude::*;
use vstd::arithmetic::div_mod::{lemma_add_mod_noop, lemma_small_mod};

verus! {

/// The last secret of each player of a team.
pub struct ChallengeHandler {
    last_secrets: Vec<u128>,
}

/// The sum of the secrets.
pub open spec fn total(secrets: Seq<u128>) -> nat
    decreases secrets.len(),
{
    if secrets.len() == 0 {
        0
    } else {
        total(secrets.drop_last()) + secrets.last() as nat
    }
}

impl View for ChallengeHandler {
    type V = Seq<u128>;

    closed spec fn view(&self) -> Seq<u128> {
        self.last_secrets@
    }
}

impl ChallengeHandler {
    /// A handler for a team of `users_number` players, none of which has
    /// been told a secret: each secret counts as 0.
    pub fn new(users_number: usize) -> (r: Self)
        ensures
            r@ == Seq::new(users_number as nat, |i: int| 0u128),
    {
        let mut last_secrets: Vec<u128> = Vec::new();
        let mut i: usize = 0;
        while i < users_number
            invariant
                i <= users_number,
                last_secrets@ == Seq::new(i as nat, |k: int| 0u128),
            decreases users_number - i,
        {
            last_secrets.push(0);
            assert(last_secrets@ =~= Seq::new((i + 1) as nat, |k: int| 0u128));
            i += 1;
        }
        ChallengeHandler { last_secrets }
    }

    /// The number of players of the team.
    pub fn users_number(&self) -> (n: usize)
        ensures
            n == self@.len(),
    {
        self.last_secrets.len()
    }

    /// Records the secret that player `user_id` was told last.
    pub fn update_secrets(&mut self, secret: u128, user_id: usize)
        requires
            user_id < old(self)@.len(),
        ensures
            final(self)@ == old(self)@.update(user_id as int, secret),
    {
        self.last_secrets[user_id] = secret;
    }

    /// The answer to the challenge: the sum of the last secrets of all
    /// players, reduced modulo `modulo`. The sum is taken as a whole,
    /// however large it is.
    pub fn secret_sum_modulo(&self, modulo: u128) -> (r: u128)
        requires
            modulo > 0,
        ensures
            r == total(self@) % (modulo as nat),
    {
        let mut sum: u128 = 0;
        let mut i: usize = 0;
        proof {
            lemma_small_mod(0, modulo as nat);
        }
        while i < self.last_secrets.len()
            invariant
                i <= self.last_secrets@.len(),
                modulo > 0,
                sum < modulo,
                sum == total(self.last_secrets@.take(i as int)) % (modulo as nat),
            decreases self.last_secrets@.len() - i,
        {
            let secret = self.last_secrets[i] % modulo;
            let ghost before = total(self.last_secrets@.take(i as int));
            proof {
                assert(self.last_secrets@.take(i + 1).drop_last() =~= self.last_secrets@.take(
                    i as int,
                ));
                lemma_add_mod_noop(before as int, self.last_secrets@[i as int] as int, modulo as int);
            }
            if sum >= modulo - secret {
                sum = sum - (modulo - secret);
                proof {
                    lemma_reduce_once(sum as int + modulo as int, sum as int, modulo as int);
                }
            } else {
                sum = sum + secret;
                proof {
                    lemma_small_mod(sum as nat, modulo as nat);
                }
            }
            i += 1;
        }
        assert(self.last_secrets@.take(i as int) =~= self.last_secrets@);
        sum
    }
}

/// A number between `m` and `2 m` is reduced by taking `m` off once.
proof fn lemma_reduce_once(x: int, r: int, m: int)
    requires
        0 < m,
        0 <= r < m,
        x == r + m,
    ensures
        x % m == r,
{
    vstd::arithmetic::div_mod::lemma_fundamental_div_mod_converse(x, m, 1, r);
}

} // verus!
