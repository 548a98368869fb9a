//! The catalog of leaders that a relayer forwards to.

use crate::lex::{
    before, before_is_asymmetric, before_is_total, before_is_transitive, byte_values,
    byte_values_are_injective, code_points, code_points_are_injective, first_difference_decides,
    rank_bytes, rank_chars, Rank,
};
use crate::text::{
    chars_of, copy, from_hex, join2, lowercase, parse_hex, same_text, to_lowercase,
    trim_end_slashes, trim_slashes, trimming_takes_only_slashes,
};
use vstd::prelude::*;

verus! {

/// A leader as it is configured.
#[derive(Debug)]
pub struct RelayerLeaderConfig {
    pub public_key: String,
    pub url: String,
}

/// A leader as the relayer finds it.
#[derive(Debug)]
pub struct Leader {
    pub public_key: String,
    pub sort_key: Vec<u8>,
    pub url: String,
}

/// A catalog that no relayer serves.
#[derive(Debug)]
pub enum LeaderFault {
    NotHex { public_key: String },
    Repeated { public_key: String },
}

impl LeaderFault {
    /// The message of this fault.
    pub open spec fn message(&self) -> Seq<char> {
        match *self {
            LeaderFault::NotHex { public_key } => "leader public_key must be hex: "@ + public_key@,
            LeaderFault::Repeated { public_key } => "leader public_key must be unique: "@
                + public_key@,
        }
    }

    /// The message of this fault as text.
    pub fn to_text(&self) -> (text: String)
        ensures
            text@ == self.message(),
    {
        match self {
            LeaderFault::NotHex { public_key } => join2(
                "leader public_key must be hex: ",
                public_key.as_str(),
            ),
            LeaderFault::Repeated { public_key } => join2(
                "leader public_key must be unique: ",
                public_key.as_str(),
            ),
        }
    }
}

impl Leader {
    /// Whether two leaders read the same.
    pub open spec fn same_as(&self, other: &Leader) -> bool {
        &&& self.public_key@ == other.public_key@
        &&& self.sort_key@ == other.sort_key@
        &&& self.url@ == other.url@
    }

    /// A copy of this leader.
    pub fn copy(&self) -> (leader: Leader)
        ensures
            leader.same_as(self),
    {
        let mut sort_key: Vec<u8> = Vec::new();
        let mut i: usize = 0;
        while i < self.sort_key.len()
            invariant
                i <= self.sort_key.len(),
                sort_key@ == self.sort_key@.take(i as int),
            decreases self.sort_key.len() - i,
        {
            sort_key.push(self.sort_key[i]);
            i = i + 1;
            assert(sort_key@ =~= self.sort_key@.take(i as int));
        }
        assert(sort_key@ =~= self.sort_key@);
        Leader { public_key: self.public_key.clone(), sort_key, url: self.url.clone() }
    }
}

/// Whether `leader` is what `config` normalizes to: the key in lowercase, its
/// bytes to sort by, and the address without trailing slashes.
pub open spec fn normalizes_to(config: RelayerLeaderConfig, leader: Leader) -> bool {
    &&& leader.public_key@ == lowercase(config.public_key@)
    &&& parse_hex(lowercase(config.public_key@)) == Some(leader.sort_key@)
    &&& leader.url@ == trim_slashes(config.url@)
}

/// Whether `leader` is what one of `configs` normalizes to.
pub open spec fn comes_from(configs: Seq<RelayerLeaderConfig>, leader: Leader) -> bool {
    exists|k: int| 0 <= k < configs.len() && #[trigger] normalizes_to(configs[k], leader)
}

/// Whether one of `leaders` is what `config` normalizes to.
pub open spec fn is_listed(leaders: Seq<Leader>, config: RelayerLeaderConfig) -> bool {
    exists|i: int| 0 <= i < leaders.len() && #[trigger] normalizes_to(config, leaders[i])
}

/// Whether the key of `config` is hexadecimal.
pub open spec fn has_hex_key(config: RelayerLeaderConfig) -> bool {
    parse_hex(lowercase(config.public_key@)) is Some
}

/// Whether two of `configs` have the same key, up to case.
pub open spec fn repeats_leader(configs: Seq<RelayerLeaderConfig>) -> bool {
    exists|i: int, j: int|
        0 <= i < j < configs.len() && lowercase((#[trigger] configs[i]).public_key@) == lowercase(
            (#[trigger] configs[j]).public_key@,
        )
}

/// Whether `a` sorts before `b`: by key bytes, then by key text.
pub open spec fn leader_before(a: Leader, b: Leader) -> bool {
    ||| before(byte_values(a.sort_key@), byte_values(b.sort_key@))
    ||| a.sort_key@ == b.sort_key@ && before(
        code_points(a.public_key@),
        code_points(b.public_key@),
    )
}

/// Whether the key `a` sorts before the key `b`: by key bytes, then by key text.
pub open spec fn key_before(a: Seq<char>, b: Seq<char>) -> bool {
    ||| before(byte_values(parse_hex(a)->0), byte_values(parse_hex(b)->0))
    ||| parse_hex(a)->0 == parse_hex(b)->0 && before(code_points(a), code_points(b))
}

/// Whether two of `configs` have `key`, up to case.
pub open spec fn repeats_key(configs: Seq<RelayerLeaderConfig>, key: Seq<char>) -> bool {
    exists|i: int, j: int|
        0 <= i < j < configs.len() && lowercase((#[trigger] configs[i]).public_key@) == key
            && lowercase((#[trigger] configs[j]).public_key@) == key
}

proof fn lemma_leader_transitive(a: Leader, b: Leader, c: Leader)
    requires
        leader_before(a, b),
        leader_before(b, c),
    ensures
        leader_before(a, c),
{
    let (x, y, z) = (byte_values(a.sort_key@), byte_values(b.sort_key@), byte_values(c.sort_key@));
    if before(x, y) && before(y, z) {
        before_is_transitive(x, y, z);
    }
    if !before(x, y) && !before(y, z) {
        before_is_transitive(
            code_points(a.public_key@),
            code_points(b.public_key@),
            code_points(c.public_key@),
        );
    }
}

proof fn lemma_leader_total(a: Leader, b: Leader)
    ensures
        leader_before(a, b) || leader_before(b, a) || (a.sort_key@ == b.sort_key@ && a.public_key@
            == b.public_key@),
{
    before_is_total(byte_values(a.sort_key@), byte_values(b.sort_key@));
    if byte_values(a.sort_key@) == byte_values(b.sort_key@) {
        byte_values_are_injective(a.sort_key@, b.sort_key@);
        before_is_total(code_points(a.public_key@), code_points(b.public_key@));
        if code_points(a.public_key@) == code_points(b.public_key@) {
            code_points_are_injective(a.public_key@, b.public_key@);
        }
    }
}

proof fn lemma_leader_asymmetric(a: Leader, b: Leader)
    requires
        leader_before(a, b),
    ensures
        !leader_before(b, a),
        !(a.sort_key@ == b.sort_key@ && a.public_key@ == b.public_key@),
{
    if before(byte_values(a.sort_key@), byte_values(b.sort_key@)) {
        before_is_asymmetric(byte_values(a.sort_key@), byte_values(b.sort_key@));
    } else {
        before_is_asymmetric(code_points(a.public_key@), code_points(b.public_key@));
        if before(byte_values(b.sort_key@), byte_values(a.sort_key@)) {
            before_is_asymmetric(byte_values(b.sort_key@), byte_values(a.sort_key@));
        }
    }
}

fn sorts_before(a: &Leader, b: &Leader) -> (r: bool)
    ensures
        r == leader_before(*a, *b),
{
    match rank_bytes(a.sort_key.as_slice(), b.sort_key.as_slice()) {
        Rank::Before => true,
        Rank::After => {
            proof {
                before_is_asymmetric(byte_values(b.sort_key@), byte_values(a.sort_key@));
            }
            false
        },
        Rank::Same => {
            let x = chars_of(a.public_key.as_str());
            let y = chars_of(b.public_key.as_str());
            proof {
                if before(byte_values(a.sort_key@), byte_values(b.sort_key@)) {
                    before_is_asymmetric(byte_values(a.sort_key@), byte_values(b.sort_key@));
                }
            }
            match rank_chars(x.as_slice(), y.as_slice()) {
                Rank::Before => true,
                Rank::After => {
                    proof {
                        before_is_asymmetric(
                            code_points(b.public_key@),
                            code_points(a.public_key@),
                        );
                    }
                    false
                },
                Rank::Same => {
                    proof {
                        if before(code_points(a.public_key@), code_points(b.public_key@)) {
                            before_is_asymmetric(
                                code_points(a.public_key@),
                                code_points(b.public_key@),
                            );
                        }
                    }
                    false
                },
            }
        },
    }
}

/// Whether no leader up to `n` sorts before an earlier one.
spec fn sorted_to(leaders: Seq<Leader>, n: int) -> bool {
    forall|i: int, j: int| 0 <= i < j < n ==> !leader_before(leaders[j], leaders[i])
}

/// Whether `perm` is the order that `after` has the items of `before` in.
spec fn reorders(items: Seq<Leader>, after: Seq<Leader>, perm: Seq<int>) -> bool {
    &&& after.len() == items.len()
    &&& perm.len() == items.len()
    &&& forall|i: int|
        0 <= i < perm.len() ==> 0 <= #[trigger] perm[i] < items.len() && after[i] == items[perm[i]]
    &&& forall|i: int, j: int| 0 <= i < j < perm.len() ==> perm[i] != perm[j]
    &&& forall|k: int| 0 <= k < items.len() ==> perm.contains(k)
}

proof fn lemma_move_reorders(
    items: Seq<Leader>,
    after: Seq<Leader>,
    perm: Seq<int>,
    from: int,
    to: int,
)
    requires
        reorders(items, after, perm),
        0 <= to <= from < after.len(),
    ensures
        reorders(
            items,
            after.remove(from).insert(to, after[from]),
            perm.remove(from).insert(to, perm[from]),
        ),
{
    let moved = perm.remove(from).insert(to, perm[from]);
    let back = |i: int|
        if i == to {
            from
        } else if i < to || i > from {
            i
        } else {
            i - 1
        };
    assert forall|i: int| 0 <= i < moved.len() implies moved[i] == perm[back(i)] by {}
    assert forall|k: int| 0 <= k < items.len() implies moved.contains(k) by {
        assert(perm.contains(k));
        let i = choose|i: int| 0 <= i < perm.len() && perm[i] == k;
        let j = if i == from {
            to
        } else if i < to || i > from {
            i
        } else {
            i + 1
        };
        assert(moved[j] == k);
    }
}

fn sort_leaders(leaders: &mut Vec<Leader>) -> (perm: Ghost<Seq<int>>)
    ensures
        sorted_to(final(leaders)@, final(leaders)@.len() as int),
        reorders(old(leaders)@, final(leaders)@, perm@),
{
    let ghost items = leaders@;
    let ghost mut perm = Seq::new(items.len(), |i: int| i);
    assert(reorders(items, leaders@, perm)) by {
        assert forall|k: int| 0 <= k < items.len() implies perm.contains(k) by {
            assert(perm[k] == k);
        }
    }
    let mut n: usize = 0;
    while n < leaders.len()
        invariant
            n <= leaders.len(),
            items == old(leaders)@,
            reorders(items, leaders@, perm),
            sorted_to(leaders@, n as int),
        decreases leaders.len() - n,
    {
        let mut at: usize = 0;
        while at < n && !sorts_before(&leaders[n], &leaders[at])
            invariant
                at <= n < leaders.len(),
                forall|i: int| 0 <= i < at ==> !leader_before(leaders@[n as int], leaders@[i]),
            decreases n - at,
        {
            at = at + 1;
        }
        let ghost prior = leaders@;
        let item = leaders.remove(n);
        leaders.insert(at, item);
        proof {
            lemma_move_reorders(items, prior, perm, n as int, at as int);
            perm = perm.remove(n as int).insert(at as int, perm[n as int]);
            lemma_insert_keeps_sorted(prior, n as int, at as int);
        }
        n = n + 1;
    }
    Ghost(perm)
}

proof fn lemma_insert_keeps_sorted(prior: Seq<Leader>, n: int, at: int)
    requires
        0 <= at <= n < prior.len(),
        sorted_to(prior, n),
        forall|i: int| 0 <= i < at ==> !leader_before(prior[n], prior[i]),
        at < n ==> leader_before(prior[n], prior[at]),
    ensures
        sorted_to(prior.remove(n).insert(at, prior[n]), n + 1),
{
    let after = prior.remove(n).insert(at, prior[n]);
    assert forall|i: int, j: int| 0 <= i < j < n + 1 implies !leader_before(
        after[j],
        after[i],
    ) by {
        if i == at {
            let k = j - 1;
            assert(after[j] == prior[k]);
            if leader_before(prior[k], prior[n]) {
                lemma_leader_transitive(prior[k], prior[n], prior[at]);
                if k > at {
                    assert(!leader_before(prior[k], prior[at]));
                } else {
                    lemma_leader_asymmetric(prior[n], prior[at]);
                }
            }
        } else if j == at {
            assert(after[i] == prior[i]);
        } else {
            let a = if i < at {
                i
            } else {
                i - 1
            };
            let b = if j < at {
                j
            } else {
                j - 1
            };
            assert(after[i] == prior[a]);
            assert(after[j] == prior[b]);
        }
    }
}

proof fn lemma_neighbours_repeat(leaders: Seq<Leader>, i: int, j: int)
    requires
        sorted_to(leaders, leaders.len() as int),
        0 <= i < j < leaders.len(),
        leaders[i].public_key@ == leaders[j].public_key@,
        leaders[i].sort_key@ == leaders[j].sort_key@,
    ensures
        leaders[i].public_key@ == leaders[i + 1].public_key@,
{
    if j > i + 1 {
        lemma_leader_total(leaders[i], leaders[i + 1]);
        assert(!leader_before(leaders[i + 1], leaders[i]));
        if leader_before(leaders[i], leaders[i + 1]) {
            assert(leader_before(leaders[j], leaders[i + 1]));
        }
    }
}

proof fn lemma_first_repeat(
    configs: Seq<RelayerLeaderConfig>,
    leaders: Seq<Leader>,
    perm: Seq<int>,
    i: int,
    key: Seq<char>,
)
    requires
        sorted_to(leaders, leaders.len() as int),
        leaders.len() == configs.len(),
        perm.len() == leaders.len(),
        forall|k: int|
            0 <= k < perm.len() ==> 0 <= #[trigger] perm[k] < configs.len() && normalizes_to(
                configs[perm[k]],
                leaders[k],
            ),
        forall|k: int| 0 <= k < configs.len() ==> perm.contains(k),
        1 <= i < leaders.len(),
        forall|k: int|
            1 <= k < i ==> (#[trigger] leaders[k]).public_key@ != leaders[k - 1].public_key@,
        repeats_key(configs, key),
    ensures
        key == leaders[i - 1].public_key@ || key_before(leaders[i - 1].public_key@, key),
{
    let (a, b) = choose|a: int, b: int|
        0 <= a < b < configs.len() && lowercase((#[trigger] configs[a]).public_key@) == key
            && lowercase((#[trigger] configs[b]).public_key@) == key;
    assert(perm.contains(a) && perm.contains(b));
    let x = choose|x: int| 0 <= x < perm.len() && perm[x] == a;
    let y = choose|y: int| 0 <= y < perm.len() && perm[y] == b;
    assert(normalizes_to(configs[perm[x]], leaders[x]));
    assert(normalizes_to(configs[perm[y]], leaders[y]));
    assert(normalizes_to(configs[perm[i - 1]], leaders[i - 1]));
    let lo = if x < y {
        x
    } else {
        y
    };
    let hi = if x < y {
        y
    } else {
        x
    };
    lemma_neighbours_repeat(leaders, lo, hi);
    assert(lo >= i - 1) by {
        if lo < i - 1 {
            assert(leaders[lo + 1].public_key@ != leaders[lo].public_key@);
        }
    }
    if lo > i - 1 {
        lemma_leader_total(leaders[i - 1], leaders[lo]);
        assert(!leader_before(leaders[lo], leaders[i - 1]));
    }
}

/// The catalog in order of key bytes, each leader normalized. A key that is no
/// hexadecimal text, or one that occurs twice, is refused; of several that occur
/// twice the least is named.
pub fn normalize_leaders(configs: &Vec<RelayerLeaderConfig>) -> (result: Result<
    Vec<Leader>,
    LeaderFault,
>)
    ensures
        result is Ok <==> (forall|i: int|
            0 <= i < configs.len() ==> has_hex_key(#[trigger] configs[i])) && !repeats_leader(
            configs@,
        ),
        result matches Ok(leaders) ==> {
            &&& leaders.len() == configs.len()
            &&& forall|i: int, j: int|
                0 <= i < j < leaders.len() ==> leader_before(
                    #[trigger] leaders[i],
                    #[trigger] leaders[j],
                )
            &&& forall|i: int|
                0 <= i < leaders.len() ==> comes_from(configs@, #[trigger] leaders[i])
            &&& forall|k: int|
                0 <= k < configs.len() ==> is_listed(leaders@, #[trigger] configs[k])
        },
        result matches Err(LeaderFault::NotHex { public_key }) ==> exists|k: int|
            0 <= k < configs.len() && !has_hex_key(#[trigger] configs[k]) && public_key@
                == lowercase(configs[k].public_key@) && forall|i: int|
                0 <= i < k ==> has_hex_key(#[trigger] configs[i]),
        result matches Err(LeaderFault::Repeated { public_key }) ==> (forall|i: int|
            0 <= i < configs.len() ==> has_hex_key(#[trigger] configs[i])) && repeats_key(
            configs@,
            public_key@,
        ) && forall|key: Seq<char>| #[trigger]
            repeats_key(configs@, key) ==> key == public_key@ || key_before(public_key@, key),
{
    let mut leaders: Vec<Leader> = Vec::new();
    let mut n: usize = 0;
    while n < configs.len()
        invariant
            n <= configs.len(),
            leaders.len() == n,
            forall|i: int| 0 <= i < n ==> has_hex_key(#[trigger] configs[i]),
            forall|i: int| 0 <= i < n ==> normalizes_to(configs[i], #[trigger] leaders[i]),
        decreases configs.len() - n,
    {
        let public_key = to_lowercase(configs[n].public_key.as_str());
        let sort_key = match from_hex(public_key.as_str()) {
            None => {
                assert(!has_hex_key(configs[n as int]));
                return Err(LeaderFault::NotHex { public_key });
            },
            Some(bytes) => bytes,
        };
        let url = trim_end_slashes(configs[n].url.as_str());
        let leader = Leader { public_key, sort_key, url };
        assert(normalizes_to(configs[n as int], leader));
        leaders.push(leader);
        n = n + 1;
    }
    let ghost items = leaders@;
    let Ghost(perm) = sort_leaders(&mut leaders);
    proof {
        assert forall|i: int| 0 <= i < leaders.len() implies normalizes_to(
            configs[perm[i]],
            #[trigger] leaders[i],
        ) by {
            assert(leaders[i] == items[perm[i]]);
        }
        assert forall|k: int| 0 <= k < configs.len() implies is_listed(
            leaders@,
            #[trigger] configs[k],
        ) by {
            assert(perm.contains(k));
            let i = choose|i: int| 0 <= i < perm.len() && perm[i] == k;
            assert(normalizes_to(configs[k], leaders[i]));
        }
        assert forall|i: int| 0 <= i < leaders.len() implies comes_from(
            configs@,
            #[trigger] leaders[i],
        ) by {
            assert(normalizes_to(configs[perm[i]], leaders[i]));
        }
    }
    let mut i: usize = 1;
    while i < leaders.len()
        invariant
            1 <= i,
            leaders.len() == configs.len(),
            perm.len() == leaders.len(),
            forall|k: int| 0 <= k < configs.len() ==> has_hex_key(#[trigger] configs[k]),
            forall|k: int|
                0 <= k < perm.len() ==> 0 <= #[trigger] perm[k] < configs.len() && normalizes_to(
                    configs[perm[k]],
                    leaders[k],
                ),
            forall|a: int, b: int| 0 <= a < b < perm.len() ==> perm[a] != perm[b],
            forall|k: int| 0 <= k < configs.len() ==> perm.contains(k),
            sorted_to(leaders@, leaders@.len() as int),
            forall|k: int|
                1 <= k < i && k < leaders.len() ==> (#[trigger] leaders[k]).public_key@ != leaders[k
                    - 1].public_key@,
        decreases leaders.len() - i,
    {
        if same_text(leaders[i - 1].public_key.as_str(), leaders[i].public_key.as_str()) {
            proof {
                let a = perm[i - 1];
                let b = perm[i as int];
                assert(normalizes_to(configs[a], leaders[i - 1]));
                assert(normalizes_to(configs[b], leaders[i as int]));
                let (lo, hi) = if a < b {
                    (a, b)
                } else {
                    (b, a)
                };
                assert(lowercase(configs[lo].public_key@) == lowercase(configs[hi].public_key@));
                assert(repeats_leader(configs@));
                assert(repeats_key(configs@, leaders[i as int].public_key@));
                assert forall|key: Seq<char>| #[trigger] repeats_key(configs@, key) implies key
                    == leaders[i as int].public_key@ || key_before(
                    leaders[i as int].public_key@,
                    key,
                ) by {
                    lemma_first_repeat(configs@, leaders@, perm, i as int, key);
                }
            }
            let public_key = copy(leaders[i].public_key.as_str());
            return Err(LeaderFault::Repeated { public_key });
        }
        i = i + 1;
    }
    proof {
        assert(!repeats_leader(configs@)) by {
            if repeats_leader(configs@) {
                let (a, b) = choose|a: int, b: int|
                    0 <= a < b < configs.len() && lowercase((#[trigger] configs[a]).public_key@)
                        == lowercase((#[trigger] configs[b]).public_key@);
                assert(perm.contains(a));
                assert(perm.contains(b));
                let x = choose|x: int| 0 <= x < perm.len() && perm[x] == a;
                let y = choose|y: int| 0 <= y < perm.len() && perm[y] == b;
                assert(normalizes_to(configs[a], leaders[x]));
                assert(normalizes_to(configs[b], leaders[y]));
                let (lo, hi) = if x < y {
                    (x, y)
                } else {
                    (y, x)
                };
                lemma_neighbours_repeat(leaders@, lo, hi);
                assert(leaders[lo + 1].public_key@ != leaders[lo].public_key@);
            }
        }
        assert forall|a: int, b: int| 0 <= a < b < leaders.len() implies leader_before(
            #[trigger] leaders[a],
            #[trigger] leaders[b],
        ) by {
            lemma_leader_total(leaders[a], leaders[b]);
            if !leader_before(leaders[a], leaders[b]) {
                lemma_neighbours_repeat(leaders@, a, b);
                assert(leaders[a + 1].public_key@ != leaders[a].public_key@);
            }
        }
    }
    Ok(leaders)
}

/// The index that `offset` leaders after the next one have, in a round of `len`.
pub open spec fn target_index(len: nat, observed_view: u64, offset: int) -> int {
    (observed_view as int % len as int + 1 + offset) % (len as int)
}

/// The leaders of the next views: up to `fanout` of them, in round order from
/// the one after the observed view's, none twice.
pub fn next_leaders(leaders: &Vec<Leader>, observed_view: u64, fanout: usize) -> (targets: Vec<
    Leader,
>)
    ensures
        targets.len() == (if fanout < leaders.len() {
            fanout
        } else {
            leaders.len()
        }),
        forall|k: int|
            0 <= k < targets.len() ==> (#[trigger] targets[k]).same_as(
                &leaders[target_index(leaders@.len(), observed_view, k)],
            ),
        are_targets(targets@, leaders@, observed_view, fanout as int),
{
    let mut targets: Vec<Leader> = Vec::new();
    if leaders.len() == 0 {
        return targets;
    }
    let count: usize = if fanout < leaders.len() {
        fanout
    } else {
        leaders.len()
    };
    let observed: usize = (observed_view % (leaders.len() as u64)) as usize;
    let mut at: usize = if observed + 1 == leaders.len() {
        0
    } else {
        observed + 1
    };
    proof {
        lemma_round_step(leaders@.len(), observed_view as int % leaders@.len() as int);
    }
    let mut k: usize = 0;
    while k < count
        invariant
            k <= count <= leaders.len(),
            leaders.len() > 0,
            at < leaders.len(),
            at == target_index(leaders@.len(), observed_view, k as int),
            targets.len() == k,
            forall|j: int|
                0 <= j < targets.len() ==> (#[trigger] targets[j]).same_as(
                    &leaders[target_index(leaders@.len(), observed_view, j)],
                ),
        decreases count - k,
    {
        targets.push(leaders[at].copy());
        proof {
            lemma_round_next(leaders@.len(), observed_view as int % leaders@.len() as int + 1 + k);
        }
        at = if at + 1 == leaders.len() {
            0
        } else {
            at + 1
        };
        k = k + 1;
    }
    targets
}

proof fn lemma_round_step(len: nat, observed: int)
    requires
        0 <= observed < len,
    ensures
        (observed + 1) % (len as int) == (if observed + 1 == len {
            0
        } else {
            observed + 1
        }),
{
    if observed + 1 == len {
        vstd::arithmetic::div_mod::lemma_mod_self_0(len as int);
    } else {
        vstd::arithmetic::div_mod::lemma_small_mod((observed + 1) as nat, len);
    }
}

proof fn lemma_round_next(len: nat, x: int)
    requires
        len > 0,
        x >= 0,
    ensures
        (x + 1) % (len as int) == (if x % (len as int) + 1 == len {
            0
        } else {
            x % (len as int) + 1
        }),
{
    vstd::arithmetic::div_mod::lemma_add_mod_noop(x, 1, len as int);
    vstd::arithmetic::div_mod::lemma_mod_bound(x, len as int);
    if len == 1 {
    } else {
        vstd::arithmetic::div_mod::lemma_small_mod(1, len);
        lemma_round_step(len, x % (len as int));
    }
}

/// A transaction is never forwarded to the same leader twice: different places
/// among the targets are different leaders of the catalog.
pub proof fn targets_are_distinct(len: nat, observed_view: u64, a: int, b: int)
    requires
        0 <= a < b < len,
    ensures
        target_index(len, observed_view, a) != target_index(len, observed_view, b),
        0 <= target_index(len, observed_view, a) < len,
{
    let base = observed_view as int % len as int + 1;
    let n = len as int;
    vstd::arithmetic::div_mod::lemma_mod_bound(base + a, n);
    if (base + a) % n == (base + b) % n {
        vstd::arithmetic::div_mod::lemma_fundamental_div_mod(base + a, n);
        vstd::arithmetic::div_mod::lemma_fundamental_div_mod(base + b, n);
        let p = (base + a) / n;
        let q = (base + b) / n;
        assert(b - a == n * (q - p)) by (nonlinear_arith)
            requires
                base + a == n * p + (base + a) % n,
                base + b == n * q + (base + b) % n,
                (base + a) % n == (base + b) % n,
        ;
        assert(q - p > 0 && q - p < 1) by (nonlinear_arith)
            requires
                b - a == n * (q - p),
                0 < b - a < n,
        ;
    }
}

/// The leader with the given key.
pub fn leader_by_id<'a>(leaders: &'a Vec<Leader>, public_key: &str) -> (found: Option<&'a Leader>)
    ensures
        match found {
            Some(leader) => exists|i: int|
                0 <= i < leaders.len() && leader == leaders[i] && (#[trigger] leaders[i]).public_key@
                    == public_key@ && forall|j: int|
                    0 <= j < i ==> (#[trigger] leaders[j]).public_key@ != public_key@,
            None => forall|i: int|
                0 <= i < leaders.len() ==> (#[trigger] leaders[i]).public_key@ != public_key@,
        },
{
    let mut i: usize = 0;
    while i < leaders.len()
        invariant
            i <= leaders.len(),
            forall|j: int| 0 <= j < i ==> (#[trigger] leaders[j]).public_key@ != public_key@,
        decreases leaders.len() - i,
    {
        if same_text(leaders[i].public_key.as_str(), public_key) {
            return Some(&leaders[i]);
        }
        i = i + 1;
    }
    None
}

/// Whether `targets` are the leaders of the next views.
pub open spec fn are_targets(
    targets: Seq<Leader>,
    leaders: Seq<Leader>,
    observed_view: u64,
    fanout: int,
) -> bool {
    &&& targets.len() == (if fanout < leaders.len() {
        fanout
    } else {
        leaders.len() as int
    })
    &&& forall|k: int|
        0 <= k < targets.len() ==> (#[trigger] targets[k]).same_as(
            &leaders[target_index(leaders.len(), observed_view, k)],
        )
}

/// Views take the leaders in turn, round after round: the first target is the
/// leader of the view after the observed one, the `k`-th that of the view `k`
/// further on, and every view counts, however many rounds have passed.
pub proof fn views_take_leaders_in_turn(
    targets: Seq<Leader>,
    leaders: Seq<Leader>,
    observed_view: u64,
    fanout: int,
    k: int,
)
    requires
        are_targets(targets, leaders, observed_view, fanout),
        0 <= k < targets.len(),
    ensures
        targets.len() <= fanout,
        targets[k].public_key@ == leaders[(observed_view + 1 + k) % (leaders.len() as int)].public_key@,
        targets[k].url@ == leaders[(observed_view + 1 + k) % (leaders.len() as int)].url@,
        targets[k].sort_key@ == leaders[(observed_view + 1 + k) % (leaders.len() as int)].sort_key@,
{
    lemma_target_is_in_turn(leaders.len(), observed_view, k);
}

/// Observing one more view moves every target on by exactly one place in the
/// round: what was the second target is now the first.
pub proof fn one_more_view_moves_targets_on(
    before: Seq<Leader>,
    after: Seq<Leader>,
    leaders: Seq<Leader>,
    observed_view: u64,
    fanout: int,
    k: int,
)
    requires
        observed_view < u64::MAX,
        are_targets(before, leaders, observed_view, fanout),
        are_targets(after, leaders, (observed_view + 1) as u64, fanout),
        0 <= k < after.len(),
    ensures
        before.len() == after.len(),
        k + 1 < before.len() ==> after[k].public_key@ == before[k + 1].public_key@ && after[k].url@
            == before[k + 1].url@,
        target_index(leaders.len(), (observed_view + 1) as u64, k) == (target_index(
            leaders.len(),
            observed_view,
            k,
        ) + 1) % (leaders.len() as int),
        leaders.len() > 1 ==> target_index(leaders.len(), (observed_view + 1) as u64, k)
            != target_index(leaders.len(), observed_view, k),
{
    let n = leaders.len() as int;
    lemma_target_is_in_turn(leaders.len(), observed_view, k);
    lemma_target_is_in_turn(leaders.len(), observed_view, k + 1);
    lemma_target_is_in_turn(leaders.len(), (observed_view + 1) as u64, k);
    lemma_round_next(leaders.len(), observed_view + 1 + k);
    vstd::arithmetic::div_mod::lemma_mod_bound(observed_view + 1 + k, n);
    lemma_round_step(leaders.len(), (observed_view + 1 + k) % n);
}

proof fn lemma_target_is_in_turn(len: nat, observed_view: u64, k: int)
    requires
        len > 0,
        k >= 0,
    ensures
        target_index(len, observed_view, k) == (observed_view + 1 + k) % (len as int),
{
    vstd::arithmetic::div_mod::lemma_add_mod_noop(observed_view as int, 1 + k, len as int);
    vstd::arithmetic::div_mod::lemma_add_mod_noop(
        observed_view as int % len as int,
        1 + k,
        len as int,
    );
    vstd::arithmetic::div_mod::lemma_mod_twice(observed_view as int, len as int);
}

/// A leader of the catalog keeps the address that it was configured with, up to
/// slashes at its end, and its key, in lowercase; it is sorted by the bytes that
/// its key spells.
pub proof fn leaders_keep_their_address(config: RelayerLeaderConfig, leader: Leader)
    requires
        normalizes_to(config, leader),
    ensures
        leader.public_key@ == lowercase(config.public_key@),
        parse_hex(leader.public_key@) == Some(leader.sort_key@),
        leader.url@.len() <= config.url@.len(),
        leader.url@ == config.url@.take(leader.url@.len() as int),
        leader.url@.len() > 0 ==> leader.url@.last() != '/',
        forall|i: int| leader.url@.len() <= i < config.url@.len() ==> #[trigger] config.url@[i]
            == '/',
{
    trimming_takes_only_slashes(config.url@);
}

/// Of two leaders with keys of one length, the one whose key has the smaller
/// byte where they first differ comes first.
pub proof fn smaller_keys_come_first(a: Leader, b: Leader, k: int)
    requires
        a.sort_key@.len() == b.sort_key@.len(),
        0 <= k < a.sort_key@.len(),
        forall|i: int| 0 <= i < k ==> #[trigger] a.sort_key@[i] == b.sort_key@[i],
        a.sort_key@[k] != b.sort_key@[k],
    ensures
        leader_before(a, b) <==> a.sort_key@[k] < b.sort_key@[k],
{
    let x = byte_values(a.sort_key@);
    let y = byte_values(b.sort_key@);
    assert forall|i: int| 0 <= i < k implies #[trigger] x[i] == y[i] by {
        assert(a.sort_key@[i] == b.sort_key@[i]);
    }
    first_difference_decides(x, y, k);
}

/// A catalog repeats a key exactly if the keys before its last repeat one, or the
/// last has the key of one of them, up to case.
pub proof fn keys_repeat_up_to_case(
    configs: Seq<RelayerLeaderConfig>,
    config: RelayerLeaderConfig,
)
    ensures
        repeats_leader(configs.push(config)) <==> repeats_leader(configs) || exists|i: int|
            0 <= i < configs.len() && lowercase((#[trigger] configs[i]).public_key@) == lowercase(
                config.public_key@,
            ),
        !repeats_leader(Seq::empty()),
{
    let all = configs.push(config);
    assert(all[configs.len() as int] == config);
    assert forall|i: int| 0 <= i < configs.len() implies all[i] == #[trigger] configs[i] by {}
    if repeats_leader(configs) {
        let (i, j) = choose|i: int, j: int|
            0 <= i < j < configs.len() && lowercase((#[trigger] configs[i]).public_key@)
                == lowercase((#[trigger] configs[j]).public_key@);
        assert(lowercase(all[i].public_key@) == lowercase(all[j].public_key@));
    }
    if exists|i: int|
        0 <= i < configs.len() && lowercase((#[trigger] configs[i]).public_key@) == lowercase(
            config.public_key@,
        ) {
        let i = choose|i: int|
            0 <= i < configs.len() && lowercase((#[trigger] configs[i]).public_key@) == lowercase(
                config.public_key@,
            );
        assert(lowercase(all[i].public_key@) == lowercase(
            all[configs.len() as int].public_key@,
        ));
    }
    if repeats_leader(all) {
        let (i, j) = choose|i: int, j: int|
            0 <= i < j < all.len() && lowercase((#[trigger] all[i]).public_key@) == lowercase(
                (#[trigger] all[j]).public_key@,
            );
        if j < configs.len() {
            assert(lowercase(configs[i].public_key@) == lowercase(configs[j].public_key@));
        } else {
            assert(lowercase(configs[i].public_key@) == lowercase(config.public_key@));
        }
    }
}

/// Leaders stand in the order of their keys.
pub proof fn leaders_stand_in_key_order(
    a: RelayerLeaderConfig,
    b: RelayerLeaderConfig,
    first: Leader,
    second: Leader,
)
    requires
        normalizes_to(a, first),
        normalizes_to(b, second),
    ensures
        has_hex_key(a),
        leader_before(first, second) <==> key_before(
            lowercase(a.public_key@),
            lowercase(b.public_key@),
        ),
{
}

} // verus!
