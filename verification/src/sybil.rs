use vstd::prelude::*;

use crate::policy::{spec_allows, PolicyRule, PortPolicy};
use crate::relay::Snapshot;

verus! {

/// The canonical reduced exit profile: the ports an exit policy should
/// allow to cover as many common services as possible while still blocking
/// the majority of TCP ports.
pub open spec fn spec_reduced_ports() -> Seq<u16> {
    seq![
        20u16, 21, 22, 23, 43, 53, 79, 80, 81, 88, 110, 143, 194, 220, 389, 443, 464, 465, 531,
        543, 544, 554, 563, 587, 636, 706, 749, 853, 873, 902, 903, 904, 981, 989, 990, 991, 992,
        993, 994, 995, 1194, 1220, 1293, 1500, 1533, 1677, 1723, 1755, 1863, 2082, 2083, 2086,
        2087, 2095, 2096, 2102, 2103, 2104, 3128, 3389, 3690, 4321, 4643, 5050, 5190, 5222, 5223,
        5228, 5900, 6660, 6661, 6662, 6663, 6664, 6665, 6666, 6667, 6668, 6669, 6679, 6697, 8000,
        8008, 8074, 8080, 8082, 8087, 8088, 8232, 8233, 8332, 8333, 8443, 8888, 9418, 9999, 10000,
        11371, 19294, 19638, 50002, 64738,
    ]
}

/// The canonical reduced exit profile as a vector.
pub fn reduced_exit_policy_ports() -> (v: Vec<u16>)
    ensures
        v@ == spec_reduced_ports(),
{
    let v: Vec<u16> = vec![
        20u16, 21, 22, 23, 43, 53, 79, 80, 81, 88, 110, 143, 194, 220, 389, 443, 464, 465, 531,
        543, 544, 554, 563, 587, 636, 706, 749, 853, 873, 902, 903, 904, 981, 989, 990, 991, 992,
        993, 994, 995, 1194, 1220, 1293, 1500, 1533, 1677, 1723, 1755, 1863, 2082, 2083, 2086,
        2087, 2095, 2096, 2102, 2103, 2104, 3128, 3389, 3690, 4321, 4643, 5050, 5190, 5222, 5223,
        5228, 5900, 6660, 6661, 6662, 6663, 6664, 6665, 6666, 6667, 6668, 6669, 6679, 6697, 8000,
        8008, 8074, 8080, 8082, 8087, 8088, 8232, 8233, 8332, 8333, 8443, 8888, 9418, 9999, 10000,
        11371, 19294, 19638, 50002, 64738,
    ];
    proof {
        assert(v@ =~= spec_reduced_ports());
    }
    v
}

/// The policy allows every port of the profile.
pub open spec fn spec_policy_covers(rules: Seq<PolicyRule>, ports: Seq<u16>) -> bool {
    forall|i: int| 0 <= i < ports.len() ==> spec_allows(rules, #[trigger] ports[i])
}

/// The policy allows no port of the profile.
pub open spec fn spec_policy_avoids(rules: Seq<PolicyRule>, ports: Seq<u16>) -> bool {
    forall|i: int| 0 <= i < ports.len() ==> !spec_allows(rules, #[trigger] ports[i])
}

/// The policy allows some port outside the profile.
pub open spec fn spec_policy_exceeds(rules: Seq<PolicyRule>, ports: Seq<u16>) -> bool {
    exists|p: u16| spec_allows(rules, p) && !ports.contains(p)
}

/// How an exit policy stands to the canonical profile; only the two
/// actionable extremes are named.
#[derive(Clone, Copy, Debug, PartialEq, Eq, Structural)]
pub enum PolicyClass {
    /// Allows the whole profile and at least one port outside it.
    MatchesAndExceeds,
    /// Allows nothing of the profile.
    MatchesNone,
}

/// The classification of a policy against a profile, if it reaches either
/// extreme; partial overlaps are left out.
pub open spec fn spec_class_of(rules: Seq<PolicyRule>, ports: Seq<u16>) -> Option<PolicyClass> {
    if spec_policy_covers(rules, ports) && spec_policy_exceeds(rules, ports) {
        Some(PolicyClass::MatchesAndExceeds)
    } else if spec_policy_avoids(rules, ports) {
        Some(PolicyClass::MatchesNone)
    } else {
        None
    }
}

/// A relay's v4 policy equals no other relay's in the snapshot.
pub open spec fn spec_policy_unique(snapshot: Snapshot, i: int) -> bool {
    forall|j: int|
        0 <= j < snapshot.relays@.len() && j != i ==> (#[trigger] snapshot.relays@[j]).ipv4_policy@
            != snapshot.relays@[i].ipv4_policy@
}

/// The exit-policy inspection command.
#[derive(Debug, Clone, PartialEq, Eq)]
pub struct TestExitPolicy {}

#[derive(Debug, Clone, PartialEq, Eq)]
pub enum SybilSubCommand {
    Exitpolicy(TestExitPolicy),
}

#[derive(Debug, Clone, PartialEq, Eq)]
pub struct SybilCommand {
    pub subcommand: SybilSubCommand,
}

fn ports_contain(ports: &Vec<u16>, p: u16) -> (r: bool)
    ensures
        r == ports@.contains(p),
{
    let n = ports.len();
    let mut i: usize = 0;
    while i < n
        invariant
            i <= n,
            n == ports@.len(),
            forall|j: int| 0 <= j < i ==> ports@[j] != p,
        decreases n - i,
    {
        if ports[i] == p {
            assert(ports@[i as int] == p);
            return true;
        }
        i = i + 1;
    }
    assert(!ports@.contains(p));
    false
}

impl SybilCommand {
    /// The policy allows every port of the profile.
    pub fn match_policy(&self, policy: &PortPolicy, reduced: &Vec<u16>) -> (r: bool)
        ensures
            r == spec_policy_covers(policy@, reduced@),
    {
        let n = reduced.len();
        let mut i: usize = 0;
        while i < n
            invariant
                i <= n,
                n == reduced@.len(),
                forall|j: int| 0 <= j < i ==> spec_allows(policy@, #[trigger] reduced@[j]),
            decreases n - i,
        {
            if !policy.allows_port(reduced[i]) {
                assert(!spec_allows(policy@, reduced@[i as int]));
                return false;
            }
            i = i + 1;
        }
        true
    }

    /// The policy allows no port of the profile.
    pub fn match_policy_empty(&self, policy: &PortPolicy, reduced: &Vec<u16>) -> (r: bool)
        ensures
            r == spec_policy_avoids(policy@, reduced@),
    {
        let n = reduced.len();
        let mut i: usize = 0;
        while i < n
            invariant
                i <= n,
                n == reduced@.len(),
                forall|j: int| 0 <= j < i ==> !spec_allows(policy@, #[trigger] reduced@[j]),
            decreases n - i,
        {
            if policy.allows_port(reduced[i]) {
                assert(spec_allows(policy@, reduced@[i as int]));
                return false;
            }
            i = i + 1;
        }
        true
    }

    /// The policy allows the whole profile and, probing every one of the
    /// 65536 ports, at least one port outside it.
    pub fn match_policy_and_more(&self, policy: &PortPolicy, reduced: &Vec<u16>) -> (r: bool)
        ensures
            r == (spec_policy_covers(policy@, reduced@) && spec_policy_exceeds(
                policy@,
                reduced@,
            )),
    {
        if !self.match_policy(policy, reduced) {
            return false;
        }
        let mut c: u32 = 0;
        while c < 65536
            invariant
                c <= 65536,
                spec_policy_covers(policy@, reduced@),
                forall|q: u16|
                    (q as int) < c ==> !(spec_allows(policy@, q) && !reduced@.contains(q)),
            decreases 65536 - c,
        {
            let p: u16 = c as u16;
            proof {
                assert(p as int == c as int);
            }
            if policy.allows_port(p) && !ports_contain(reduced, p) {
                assert(spec_allows(policy@, p) && !reduced@.contains(p));
                return true;
            }
            c = c + 1;
        }
        proof {
            assert(forall|q: u16| !(spec_allows(policy@, q) && !reduced@.contains(q)));
        }
        false
    }

    /// Groups relays by exact policy identity and reports, for each policy
    /// held by exactly one relay, whether it reaches either extreme of the
    /// canonical profile; partial overlaps are deliberately left out.
    pub fn classify(&self, snapshot: &Snapshot) -> (r: Vec<(usize, PolicyClass)>)
        ensures
            forall|k: int|
                0 <= k < r@.len() ==> ((#[trigger] r@[k]).0 as int) < snapshot.relays@.len()
                    && spec_policy_unique(*snapshot, r@[k].0 as int) && spec_class_of(
                    snapshot.relays@[r@[k].0 as int].ipv4_policy@,
                    spec_reduced_ports(),
                ) == Some(r@[k].1),
            forall|k1: int, k2: int| 0 <= k1 < k2 < r@.len() ==> r@[k1].0 < r@[k2].0,
            forall|i: int|
                0 <= i < snapshot.relays@.len() && spec_policy_unique(*snapshot, i)
                    && spec_class_of(
                    (#[trigger] snapshot.relays@[i]).ipv4_policy@,
                    spec_reduced_ports(),
                ) is Some ==> exists|k: int| 0 <= k < r@.len() && (#[trigger] r@[k]).0 == i,
    {
        let reduced = reduced_exit_policy_ports();
        let n = snapshot.relays.len();
        let mut r: Vec<(usize, PolicyClass)> = Vec::new();
        let mut i: usize = 0;
        while i < n
            invariant
                i <= n,
                n == snapshot.relays@.len(),
                reduced@ == spec_reduced_ports(),
                forall|k: int|
                    0 <= k < r@.len() ==> ((#[trigger] r@[k]).0 as int) < i && spec_policy_unique(
                        *snapshot,
                        r@[k].0 as int,
                    ) && spec_class_of(
                        snapshot.relays@[r@[k].0 as int].ipv4_policy@,
                        spec_reduced_ports(),
                    ) == Some(r@[k].1),
                forall|k1: int, k2: int| 0 <= k1 < k2 < r@.len() ==> r@[k1].0 < r@[k2].0,
                forall|j: int|
                    0 <= j < i && spec_policy_unique(*snapshot, j) && spec_class_of(
                        (#[trigger] snapshot.relays@[j]).ipv4_policy@,
                        spec_reduced_ports(),
                    ) is Some ==> exists|k: int| 0 <= k < r@.len() && (#[trigger] r@[k]).0 == j,
            decreases n - i,
        {
            let mut unique = true;
            let mut j: usize = 0;
            while j < n
                invariant
                    j <= n,
                    i < n,
                    n == snapshot.relays@.len(),
                    unique == (forall|m: int|
                        0 <= m < j && m != i ==> (#[trigger] snapshot.relays@[m]).ipv4_policy@
                            != snapshot.relays@[i as int].ipv4_policy@),
                decreases n - j,
            {
                if j != i && snapshot.relays[j].ipv4_policy.eq_policy(
                    &snapshot.relays[i].ipv4_policy,
                ) {
                    unique = false;
                }
                j = j + 1;
            }
            let ghost prev = r@;
            if unique {
                let policy = &snapshot.relays[i].ipv4_policy;
                if self.match_policy_and_more(policy, &reduced) {
                    r.push((i, PolicyClass::MatchesAndExceeds));
                } else if self.match_policy_empty(policy, &reduced) {
                    r.push((i, PolicyClass::MatchesNone));
                }
            }
            proof {
                assert forall|j2: int|
                    0 <= j2 < i + 1 && spec_policy_unique(*snapshot, j2) && spec_class_of(
                        (#[trigger] snapshot.relays@[j2]).ipv4_policy@,
                        spec_reduced_ports(),
                    ) is Some implies exists|k: int|
                    0 <= k < r@.len() && (#[trigger] r@[k]).0 == j2 by {
                    if j2 < i {
                        let k = choose|k: int| 0 <= k < prev.len() && prev[k].0 == j2;
                        assert(r@[k].0 == j2);
                    } else {
                        assert(r@[r@.len() - 1].0 == i);
                    }
                }
            }
            i = i + 1;
        }
        r
    }
}


/// Boundary of the classifier: a policy that allows exactly the profile's
/// ports and nothing else is never reported as matching-and-exceeding.
pub proof fn lemma_exact_profile_not_exceeding(rules: Seq<PolicyRule>)
    requires
        forall|p: u16| spec_allows(rules, p) <==> spec_reduced_ports().contains(p),
    ensures
        spec_class_of(rules, spec_reduced_ports()) != Some(PolicyClass::MatchesAndExceeds),
{
    if spec_policy_exceeds(rules, spec_reduced_ports()) {
        let p = choose|p: u16| spec_allows(rules, p) && !spec_reduced_ports().contains(p);
        assert(spec_reduced_ports().contains(p));
    }
}

} // verus!
