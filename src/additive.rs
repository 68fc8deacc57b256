//! Additive n-out-of-n sharing: a secret split into summands that reduce
//! to it, and the multi-party sum built on it.

use vstd::arithmetic::div_mod::{lemma_add_mod_noop, lemma_sub_mod_noop};
use vstd::prelude::*;

use crate::field::{calc_mod, reduce, ShareError, PRIME};
use crate::random::{random_below, random_bool};

verus! {

/// The sum of the first `k` values of `s`, over the integers.
pub open spec fn sum_prefix(s: Seq<i32>, k: nat) -> int
    decreases k,
{
    if k == 0 {
        0
    } else {
        sum_prefix(s, (k - 1) as nat) + s[k - 1]
    }
}

/// The sum of all values of `s`, over the integers.
pub open spec fn seq_sum(s: Seq<i32>) -> int {
    sum_prefix(s, s.len())
}

/// Whether `v` is a random summand as the additive scheme draws them: a
/// magnitude below the prime with either sign.
pub open spec fn is_offset(v: i32) -> bool {
    -PRIME < v < PRIME
}

/// Reconstructs a secret from its complete additive share set: the sum of
/// the shares, reduced into the field.
pub fn open(shares: &[i32]) -> (r: i32)
    ensures
        r == reduce(seq_sum(shares@)),
        0 <= r < PRIME,
{
    let mut sum: i32 = 0;
    let mut i: usize = 0;
    while i < shares.len()
        invariant
            0 <= i <= shares.len(),
            sum == reduce(sum_prefix(shares@, i as nat)),
            0 <= sum < PRIME,
        decreases shares.len() - i,
    {
        let v = calc_mod(shares[i]);
        proof {
            lemma_add_mod_noop(sum_prefix(shares@, i as nat), shares@[i as int] as int, PRIME as int);
            lemma_add_mod_noop(sum as int, v as int, PRIME as int);
            vstd::arithmetic::div_mod::lemma_mod_twice(sum_prefix(shares@, i as nat), PRIME as int);
            vstd::arithmetic::div_mod::lemma_mod_twice(shares@[i as int] as int, PRIME as int);
        }
        sum = calc_mod(sum + v);
        i += 1;
    }
    sum
}

/// Sums, reduced into the field, the shares that one party received, one
/// from each secret owner.
pub fn sum_received_shares(received_shares: &[i32]) -> (r: i32)
    ensures
        r == reduce(seq_sum(received_shares@)),
        0 <= r < PRIME,
{
    open(received_shares)
}

/// Completes a set of drawn summands into an additive share set for
/// `secret`: the summands, then `reduce(secret - sum of summands)`.
pub fn share_from_offsets(secret: i32, offsets: &[i32]) -> (r: Vec<i32>)
    requires
        offsets.len() < usize::MAX,
    ensures
        r@.len() == offsets@.len() + 1,
        r@.drop_last() == offsets@,
        r@.last() == reduce(secret - seq_sum(offsets@)),
        reduce(seq_sum(r@)) == reduce(secret as int),
{
    let sum = open(offsets);
    let last = calc_mod(calc_mod(secret) - sum);
    let mut shares: Vec<i32> = Vec::new();
    let mut i: usize = 0;
    while i < offsets.len()
        invariant
            0 <= i <= offsets.len(),
            shares@ == offsets@.take(i as int),
        decreases offsets.len() - i,
    {
        shares.push(offsets[i]);
        i += 1;
        assert(shares@ == offsets@.take(i as int));
    }
    assert(shares@ == offsets@);
    shares.push(last);
    let ghost total = seq_sum(offsets@);
    proof {
        let p = PRIME as int;
        assert(shares@.drop_last() == offsets@);
        lemma_sum_push(offsets@, last);
        lemma_sub_mod_noop(secret as int, total, p);
        lemma_sub_mod_noop(reduce(secret as int), reduce(total), p);
        vstd::arithmetic::div_mod::lemma_mod_twice(secret as int, p);
        vstd::arithmetic::div_mod::lemma_mod_twice(total, p);
        lemma_add_mod_noop(total, reduce(secret - total), p);
        lemma_add_mod_noop(total, secret - total, p);
    }
    shares
}

/// Appending `v` to `s` adds `v` to its sum.
proof fn lemma_sum_push(s: Seq<i32>, v: i32)
    ensures
        seq_sum(s.push(v)) == seq_sum(s) + v,
{
    lemma_sum_prefix_agree(s, s.push(v), s.len());
}

/// Two sequences that agree on their first `k` values have equal sums of
/// those values.
proof fn lemma_sum_prefix_agree(s: Seq<i32>, t: Seq<i32>, k: nat)
    requires
        k <= s.len(),
        k <= t.len(),
        forall|i: int| 0 <= i < k ==> s[i] == t[i],
    ensures
        sum_prefix(s, k) == sum_prefix(t, k),
    decreases k,
{
    if k > 0 {
        lemma_sum_prefix_agree(s, t, (k - 1) as nat);
    }
}

/// Splits `secret` into `n` additive shares: `n - 1` random summands, each a
/// magnitude below the prime with a random sign, and a last share that
/// makes the sum of all of them reduce to the secret.
pub fn share(secret: i32, n: usize) -> (r: Result<Vec<i32>, ShareError>)
    ensures
        r is Err <==> n == 0,
        r is Err ==> r->Err_0 == ShareError::InvalidPartyCount,
        r is Ok ==> r->Ok_0@.len() == n,
        r is Ok ==> reduce(seq_sum(r->Ok_0@)) == reduce(secret as int),
        r is Ok && 0 <= secret < PRIME ==> reduce(seq_sum(r->Ok_0@)) == secret,
        r is Ok ==> forall|i: int| 0 <= i < n - 1 ==> is_offset(#[trigger] r->Ok_0@[i]),
        r is Ok ==> 0 <= r->Ok_0@[n - 1] < PRIME,
        r is Ok && n == 1 ==> r->Ok_0@ == seq![reduce(secret as int) as i32],
{
    if n == 0 {
        return Err(ShareError::InvalidPartyCount);
    }
    let mut offsets: Vec<i32> = Vec::new();
    let mut i: usize = 0;
    while i < n - 1
        invariant
            0 <= i <= n - 1,
            offsets@.len() == i,
            forall|j: int| 0 <= j < i ==> is_offset(#[trigger] offsets@[j]),
        decreases n - 1 - i,
    {
        let magnitude = random_below(PRIME);
        let r = if random_bool() {
            magnitude
        } else {
            -magnitude
        };
        offsets.push(r);
        i += 1;
    }
    let shares = share_from_offsets(secret, offsets.as_slice());
    proof {
        if 0 <= secret < PRIME {
            vstd::arithmetic::div_mod::lemma_small_mod(secret as nat, PRIME as nat);
        }
        assert(forall|j: int| 0 <= j < n - 1 ==> shares@[j] == shares@.drop_last()[j]);
        if n == 1 {
            assert(offsets@.len() == 0);
            assert(seq_sum(offsets@) == 0);
            assert(shares@ =~= seq![reduce(secret as int) as i32]);
        }
    }
    Ok(shares)
}

/// What each party broadcasts when two owners have each split a secret into
/// shares: party `i` receives share `i` of each owner and reduces their sum.
pub open spec fn party_sums(a: Seq<i32>, b: Seq<i32>) -> Seq<i32> {
    Seq::new(a.len(), |i: int| reduce(seq_sum(seq![a[i], b[i]])) as i32)
}

/// Multi-party sum: when two owners split their secrets `s1` and `s2` into
/// equally many additive shares, the reduced sum of what the parties
/// broadcast is the reduced sum of the two secrets, though no party held
/// either secret.
pub proof fn lemma_multi_party_sum(s1: int, s2: int, a: Seq<i32>, b: Seq<i32>)
    requires
        a.len() == b.len(),
        reduce(seq_sum(a)) == reduce(s1),
        reduce(seq_sum(b)) == reduce(s2),
    ensures
        reduce(seq_sum(party_sums(a, b))) == reduce(s1 + s2),
{
    let p = PRIME as int;
    lemma_party_sums_prefix(a, b, a.len());
    lemma_add_mod_noop(seq_sum(a), seq_sum(b), p);
    lemma_add_mod_noop(s1, s2, p);
}

/// The reduced sum of the first `k` broadcasts is the reduced sum of the
/// first `k` shares of both owners.
proof fn lemma_party_sums_prefix(a: Seq<i32>, b: Seq<i32>, k: nat)
    requires
        a.len() == b.len(),
        k <= a.len(),
    ensures
        reduce(sum_prefix(party_sums(a, b), k)) == reduce(sum_prefix(a, k) + sum_prefix(b, k)),
    decreases k,
{
    if k > 0 {
        let j = k - 1;
        let parts = party_sums(a, b);
        let p = PRIME as int;
        lemma_party_sums_prefix(a, b, j as nat);
        let pair = seq![a[j], b[j]];
        assert(sum_prefix(pair, 2) == a[j] + b[j]) by {
            assert(sum_prefix(pair, 0) == 0);
            assert(pair[0] == a[j] && pair[1] == b[j]);
            assert(sum_prefix(pair, 1) == a[j] as int);
        }
        assert(parts[j] == reduce(a[j] + b[j]));
        let x = sum_prefix(parts, j as nat);
        let y = sum_prefix(a, j as nat) + sum_prefix(b, j as nat);
        lemma_add_mod_noop(x, parts[j] as int, p);
        lemma_add_mod_noop(y, a[j] + b[j], p);
        vstd::arithmetic::div_mod::lemma_mod_twice(a[j] + b[j], p);
    }
}

/// One run of the three-owner sum: each owner's secret split into three
/// shares, each owner's set opened again, what each party broadcasts, and
/// the total of the secrets recovered from the broadcasts alone.
pub struct AdditiveRun {
    pub alice_shares: Vec<i32>,
    pub bob_shares: Vec<i32>,
    pub chris_shares: Vec<i32>,
    pub opened: Vec<i32>,
    pub party_sums: Vec<i32>,
    pub total: i32,
}

/// The sum of a sequence of three values.
proof fn lemma_sum_of_three(s: Seq<i32>)
    requires
        s.len() == 3,
    ensures
        seq_sum(s) == s[0] + s[1] + s[2],
{
    assert(sum_prefix(s, 0) == 0);
    assert(sum_prefix(s, 1) == s[0]);
    assert(sum_prefix(s, 2) == s[0] + s[1]);
}

/// Reducing three summands first does not change the reduced sum.
proof fn lemma_reduce_sum_of_three(x: int, y: int, z: int)
    ensures
        reduce(reduce(x) + reduce(y) + reduce(z)) == reduce(x + y + z),
{
    let p = PRIME as int;
    lemma_add_mod_noop(x, y, p);
    lemma_add_mod_noop(x + y, z, p);
    lemma_add_mod_noop(reduce(x) + reduce(y), z, p);
    vstd::arithmetic::div_mod::lemma_mod_twice(z, p);
    lemma_add_mod_noop(reduce(x) + reduce(y), reduce(z), p);
}

/// Alice, Bob and Chris hold 10, 13 and 22. Each splits the secret into one
/// share per party; party `i` sums the `i`-th share of every owner and
/// broadcasts the reduced sum; the reduced sum of the broadcasts is the
/// sum of the three secrets.
pub fn addictive_sharing() -> (r: AdditiveRun)
    ensures
        r.alice_shares@.len() == 3 && r.bob_shares@.len() == 3 && r.chris_shares@.len() == 3,
        reduce(seq_sum(r.alice_shares@)) == 10,
        reduce(seq_sum(r.bob_shares@)) == 13,
        reduce(seq_sum(r.chris_shares@)) == 22,
        r.opened@.len() == 3,
        r.opened@[0] == reduce(seq_sum(r.alice_shares@)),
        r.opened@[1] == reduce(seq_sum(r.bob_shares@)),
        r.opened@[2] == reduce(seq_sum(r.chris_shares@)),
        r.opened@ == seq![10i32, 13, 22],
        r.party_sums@.len() == 3,
        forall|i: int| 0 <= i < 3 ==> #[trigger] r.party_sums@[i] == reduce(
            r.alice_shares@[i] + r.bob_shares@[i] + r.chris_shares@[i],
        ),
        r.total == reduce(r.party_sums@[0] + r.party_sums@[1] + r.party_sums@[2]),
        r.total == 45,
{
    let alice_shares = share(10, 3).unwrap();
    let bob_shares = share(13, 3).unwrap();
    let chris_shares = share(22, 3).unwrap();
    let opened = vec![
        open(alice_shares.as_slice()),
        open(bob_shares.as_slice()),
        open(chris_shares.as_slice()),
    ];
    let mut party_sums: Vec<i32> = Vec::new();
    let mut i: usize = 0;
    while i < 3
        invariant
            0 <= i <= 3,
            alice_shares@.len() == 3 && bob_shares@.len() == 3 && chris_shares@.len() == 3,
            party_sums@.len() == i,
            forall|j: int| 0 <= j < i ==> #[trigger] party_sums@[j] == reduce(
                alice_shares@[j] + bob_shares@[j] + chris_shares@[j],
            ),
        decreases 3 - i,
    {
        let received = vec![alice_shares[i], bob_shares[i], chris_shares[i]];
        let sum = sum_received_shares(received.as_slice());
        proof {
            lemma_sum_of_three(received@);
        }
        party_sums.push(sum);
        i += 1;
    }
    let total = calc_mod(party_sums[0] + party_sums[1] + party_sums[2]);
    proof {
        let a = alice_shares@;
        let b = bob_shares@;
        let c = chris_shares@;
        lemma_sum_of_three(a);
        lemma_sum_of_three(b);
        lemma_sum_of_three(c);
        lemma_reduce_sum_of_three(a[0] + b[0] + c[0], a[1] + b[1] + c[1], a[2] + b[2] + c[2]);
        lemma_reduce_sum_of_three(seq_sum(a), seq_sum(b), seq_sum(c));
        assert(reduce(10) == 10 && reduce(13) == 13 && reduce(22) == 22);
        assert(opened@ =~= seq![10i32, 13, 22]);
    }
    AdditiveRun { alice_shares, bob_shares, chris_shares, opened, party_sums, total }
}

} // verus!
