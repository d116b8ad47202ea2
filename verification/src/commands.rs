use vstd::prelude::*;

use crate::config::ConfigCommand;
use crate::distance::{lev, levenshtein, pair_le, rank_top, sorted_pairs};
use crate::errors::Error;
use crate::filter::{
    filter_relays, spec_filters_wf, spec_match_count, spec_set_matches, spec_term_matches,
    FindCommand, FindFilter,
};
use crate::fingerprint::{id2relay, spec_id_matches};
use crate::relay::{
    lemma_signature_len, relay2print, relay2string, spec_relay_print, spec_signature, RelayRecord,
    Snapshot,
};
use crate::sybil::SybilCommand;
use crate::text;

verus! {

// ---------------------------------------------------------------------------
// Counting
// ---------------------------------------------------------------------------

/// Counts relays, filter by filter and over all filters together.
#[derive(Debug, Clone, PartialEq, Eq)]
pub struct CountCommand {
    pub list: bool,
    pub filters: Vec<FindFilter>,
}

impl CountCommand {
    /// One count per filter taken alone, and the count of relays that all
    /// filters match together.
    pub fn counts(&self, snapshot: &Snapshot) -> (r: (Vec<usize>, usize))
        requires
            spec_filters_wf(self.filters@),
        ensures
            r.0@.len() == self.filters@.len(),
            forall|k: int|
                0 <= k < self.filters@.len() ==> (#[trigger] r.0@[k]) as nat == spec_match_count(
                    seq![self.filters@[k]],
                    snapshot.relays@,
                ),
            r.1 as nat == spec_match_count(self.filters@, snapshot.relays@),
    {
        let fln = self.filters.len();
        let mut per: Vec<usize> = Vec::new();
        let mut i: usize = 0;
        while i < fln
            invariant
                i <= fln,
                fln == self.filters@.len(),
                spec_filters_wf(self.filters@),
                per@.len() == i,
                forall|k: int|
                    0 <= k < i ==> (#[trigger] per@[k]) as nat == spec_match_count(
                        seq![self.filters@[k]],
                        snapshot.relays@,
                    ),
            decreases fln - i,
        {
            let ghost single = seq![self.filters@[i as int]];
            let rn = snapshot.relays.len();
            let mut c: usize = 0;
            let mut j: usize = 0;
            proof {
                assert(snapshot.relays@.take(0) =~= Seq::<RelayRecord>::empty());
            }
            while j < rn
                invariant
                    j <= rn,
                    c <= j,
                    i < fln == self.filters@.len(),
                    rn == snapshot.relays@.len(),
                    spec_filters_wf(self.filters@),
                    single == seq![self.filters@[i as int]],
                    c as nat == spec_match_count(single, snapshot.relays@.take(j as int)),
                decreases rn - j,
            {
                proof {
                    assert(snapshot.relays@.take(j + 1).drop_last() =~= snapshot.relays@.take(
                        j as int,
                    ));
                    assert(snapshot.relays@.take(j + 1).last() == snapshot.relays@[j as int]);
                    assert(single[0] == self.filters@[i as int]);
                    assert(spec_set_matches(single, snapshot.relays@[j as int])
                        == spec_term_matches(self.filters@[i as int], snapshot.relays@[j as int]))
                        by {
                        if spec_term_matches(self.filters@[i as int], snapshot.relays@[j as int]) {
                            assert(forall|m: int|
                                0 <= m < single.len() ==> spec_term_matches(
                                    #[trigger] single[m],
                                    snapshot.relays@[j as int],
                                ));
                        }
                    }
                }
                if self.filters[i].match_relay(&snapshot.relays[j]) {
                    c = c + 1;
                }
                j = j + 1;
            }
            proof {
                assert(snapshot.relays@.take(rn as int) =~= snapshot.relays@);
            }
            per.push(c);
            i = i + 1;
        }
        let all = filter_relays(&self.filters, snapshot);
        (per, all.len())
    }
}

// ---------------------------------------------------------------------------
// Nickname similarity
// ---------------------------------------------------------------------------

/// Ranks relays by the edit distance of their nickname to a query string.
#[derive(Debug, Clone, PartialEq, Eq)]
pub struct LikeCommand {
    pub name: String,
}

impl LikeCommand {
    /// The nickname distance of every relay, paired with its position.
    pub fn distances(&self, snapshot: &Snapshot) -> (r: Vec<(usize, usize)>)
        requires
            snapshot.wf(),
            self.name@.len() <= 0x1000_0000,
        ensures
            r@.len() == snapshot.relays@.len(),
            forall|i: int|
                0 <= i < r@.len() ==> (#[trigger] r@[i]).0 as nat == lev(
                    self.name@,
                    snapshot.relays@[i].nickname@,
                ) && r@[i].1 == i,
    {
        let n = snapshot.relays.len();
        let mut r: Vec<(usize, usize)> = Vec::new();
        let mut i: usize = 0;
        while i < n
            invariant
                i <= n,
                n == snapshot.relays@.len(),
                snapshot.wf(),
                self.name@.len() <= 0x1000_0000,
                r@.len() == i,
                forall|j: int|
                    0 <= j < i ==> (#[trigger] r@[j]).0 as nat == lev(
                        self.name@,
                        snapshot.relays@[j].nickname@,
                    ) && r@[j].1 == j,
            decreases n - i,
        {
            proof {
                assert(snapshot.relays@[i as int].wf());
            }
            let d = levenshtein(
                self.name.as_str(),
                snapshot.relays[i].nickname.as_str(),
            );
            r.push((d, i));
            i = i + 1;
        }
        r
    }

    /// The five closest nicknames: the ranking's head.
    pub fn top(&self, snapshot: &Snapshot) -> (r: Vec<(usize, usize)>)
        requires
            snapshot.wf(),
            self.name@.len() <= 0x1000_0000,
        ensures
            r@.len() == if 5 <= snapshot.relays@.len() {
                5int
            } else {
                snapshot.relays@.len() as int
            },
            sorted_pairs(r@),
            forall|j: int|
                0 <= j < r@.len() ==> ((#[trigger] r@[j]).1 as int) < snapshot.relays@.len()
                    && r@[j].0 as nat == lev(self.name@, snapshot.relays@[r@[j].1 as int].nickname@),
            forall|j1: int, j2: int| 0 <= j1 < j2 < r@.len() ==> r@[j1].1 != r@[j2].1,
            forall|j: int, i: int|
                #![trigger r@[j], snapshot.relays@[i]]
                0 <= j < r@.len() && 0 <= i < snapshot.relays@.len() && !r@.contains(
                    ((lev(self.name@, snapshot.relays@[i].nickname@) as usize, i as usize)),
                ) ==> pair_le(
                    r@[j],
                    ((lev(self.name@, snapshot.relays@[i].nickname@) as usize, i as usize)),
                ),
    {
        let pairs = self.distances(snapshot);
        let ghost porig = pairs@;
        proof {
            assert(porig.no_duplicates()) by {
                assert(forall|a: int, b: int|
                    0 <= a < b < porig.len() ==> (#[trigger] porig[a]).1 != (#[trigger] porig[b]).1);
            }
            crate::distance::lemma_lev_bound(self.name@, Seq::<char>::empty());
        }
        let r = rank_top(pairs, 5);
        proof {
            assert forall|j: int|
                0 <= j < r@.len() implies ((#[trigger] r@[j]).1 as int) < snapshot.relays@.len()
                && r@[j].0 as nat == lev(
                self.name@,
                snapshot.relays@[r@[j].1 as int].nickname@,
            ) by {
                assert(porig.contains(r@[j]));
                let w = choose|w: int| 0 <= w < porig.len() && porig[w] == r@[j];
                assert(porig[w].1 == w);
            }
            assert forall|j1: int, j2: int| 0 <= j1 < j2 < r@.len() implies r@[j1].1
                != r@[j2].1 by {
                if r@[j1].1 == r@[j2].1 {
                    assert(r@[j1].0 == r@[j2].0);
                }
            }
            assert forall|j: int, i: int|
                #![trigger r@[j], snapshot.relays@[i]]
                0 <= j < r@.len() && 0 <= i < snapshot.relays@.len() && !r@.contains(
                    ((lev(self.name@, snapshot.relays@[i].nickname@) as usize, i as usize)),
                ) implies pair_le(
                r@[j],
                ((lev(self.name@, snapshot.relays@[i].nickname@) as usize, i as usize)),
            ) by {
                let p = (lev(self.name@, snapshot.relays@[i].nickname@) as usize, i as usize);
                assert(porig[i] == p);
                assert(porig.contains(p));
            }
        }
        r
    }
}

// ---------------------------------------------------------------------------
// Signature similarity
// ---------------------------------------------------------------------------

/// Ranks every relay by the edit distance of its composite signature to a
/// reference relay's signature.
#[derive(Debug, Clone, PartialEq, Eq)]
pub struct SybilHunterCommand {
    pub fingerprint: String,
}

impl SybilHunterCommand {
    /// The reference relay named by the fingerprint, and the signature
    /// distance of every relay to it, sorted ascending with ties keeping
    /// snapshot order.
    pub fn ranked(&self, snapshot: &Snapshot) -> (r: Result<
        (usize, Vec<(usize, usize)>),
        Error,
    >)
        requires
            snapshot.wf(),
        ensures
            match r {
                Ok(out) => {
                    let ri = out.0 as int;
                    &&& ri < snapshot.relays@.len()
                    &&& spec_id_matches(self.fingerprint@, snapshot.relays@[ri])
                    &&& forall|j: int|
                        0 <= j < ri ==> !spec_id_matches(
                            self.fingerprint@,
                            snapshot.relays@[j],
                        )
                    &&& out.1@.len() == snapshot.relays@.len()
                    &&& sorted_pairs(out.1@)
                    &&& forall|j: int|
                        0 <= j < out.1@.len() ==> ((#[trigger] out.1@[j]).1 as int)
                            < snapshot.relays@.len() && out.1@[j].0 as nat == lev(
                            spec_signature(snapshot.relays@[ri]),
                            spec_signature(snapshot.relays@[out.1@[j].1 as int]),
                        )
                    &&& forall|j1: int, j2: int|
                        0 <= j1 < j2 < out.1@.len() ==> out.1@[j1].1 != out.1@[j2].1
                },
                Err(e) => e == Error::NoSuchRelay && (forall|j: int|
                    0 <= j < snapshot.relays@.len() ==> !spec_id_matches(
                        self.fingerprint@,
                        snapshot.relays@[j],
                    )),
            },
    {
        let ri = match id2relay(snapshot, self.fingerprint.as_str()) {
            Ok(i) => i,
            Err(_) => {
                return Err(Error::NoSuchRelay);
            },
        };
        proof {
            assert(snapshot.relays@[ri as int].wf());
            lemma_signature_len(snapshot.relays@[ri as int]);
        }
        let refsig = relay2string(&snapshot.relays[ri]);
        let n = snapshot.relays.len();
        let mut pairs: Vec<(usize, usize)> = Vec::new();
        let mut i: usize = 0;
        while i < n
            invariant
                i <= n,
                n == snapshot.relays@.len(),
                snapshot.wf(),
                ri < n,
                refsig@ == spec_signature(snapshot.relays@[ri as int]),
                pairs@.len() == i,
                forall|j: int|
                    0 <= j < i ==> (#[trigger] pairs@[j]).0 as nat == lev(
                        spec_signature(snapshot.relays@[ri as int]),
                        spec_signature(snapshot.relays@[j]),
                    ) && pairs@[j].1 == j,
            decreases n - i,
        {
            proof {
                assert(snapshot.relays@[i as int].wf());
                lemma_signature_len(snapshot.relays@[ri as int]);
                lemma_signature_len(snapshot.relays@[i as int]);
            }
            let sig = relay2string(&snapshot.relays[i]);
            let d = levenshtein(refsig.as_str(), sig.as_str());
            pairs.push((d, i));
            i = i + 1;
        }
        let ghost porig = pairs@;
        proof {
            assert(porig.no_duplicates()) by {
                assert(forall|a: int, b: int|
                    0 <= a < b < porig.len() ==> (#[trigger] porig[a]).1 != (#[trigger] porig[b]).1);
            }
        }
        let sorted = rank_top(pairs, n);
        proof {
            assert forall|j: int|
                0 <= j < sorted@.len() implies ((#[trigger] sorted@[j]).1 as int)
                < snapshot.relays@.len() && sorted@[j].0 as nat == lev(
                spec_signature(snapshot.relays@[ri as int]),
                spec_signature(snapshot.relays@[sorted@[j].1 as int]),
            ) by {
                assert(porig.contains(sorted@[j]));
                let w = choose|w: int| 0 <= w < porig.len() && porig[w] == sorted@[j];
                assert(porig[w].1 == w);
            }
            assert forall|j1: int, j2: int| 0 <= j1 < j2 < sorted@.len() implies sorted@[j1].1
                != sorted@[j2].1 by {
                if sorted@[j1].1 == sorted@[j2].1 {
                    assert(sorted@[j1].0 == sorted@[j2].0);
                }
            }
        }
        Ok((ri, sorted))
    }
}

/// The review lines of the closest relays: at most twenty, each the
/// distance, a separator, and the relay's review line.
pub fn format_distances(snapshot: &Snapshot, distances: &Vec<(usize, usize)>) -> (r: Vec<String>)
    requires
        snapshot.wf(),
        forall|j: int|
            0 <= j < distances@.len() ==> ((#[trigger] distances@[j]).1 as int)
                < snapshot.relays@.len(),
    ensures
        r@.len() == if 20 <= distances@.len() {
            20int
        } else {
            distances@.len() as int
        },
        forall|j: int|
            0 <= j < r@.len() ==> (#[trigger] r@[j])@ == text::dec_seq(distances@[j].0 as nat)
                + ": "@ + spec_relay_print(snapshot.relays@[distances@[j].1 as int]),
{
    let n = distances.len();
    let bound = if n < 20 {
        n
    } else {
        20
    };
    let mut r: Vec<String> = Vec::new();
    let mut j: usize = 0;
    while j < bound
        invariant
            j <= bound <= n,
            n == distances@.len(),
            snapshot.wf(),
            forall|m: int|
                0 <= m < distances@.len() ==> ((#[trigger] distances@[m]).1 as int)
                    < snapshot.relays@.len(),
            r@.len() == j,
            forall|m: int|
                0 <= m < j ==> (#[trigger] r@[m])@ == text::dec_seq(distances@[m].0 as nat) + ": "@
                    + spec_relay_print(snapshot.relays@[distances@[m].1 as int]),
        decreases bound - j,
    {
        let (d, idx) = distances[j];
        let mut line = text::u64_to_dec(d as u64);
        line.append(": ");
        proof {
            assert(snapshot.relays@[idx as int].wf());
        }
        let body = relay2print(&snapshot.relays[idx]);
        line.append(body.as_str());
        r.push(line);
        j = j + 1;
    }
    r
}

// ---------------------------------------------------------------------------
// Connectivity testing: the decision part
// ---------------------------------------------------------------------------

/// Selects the relays a connectivity test would extend to; building the
/// circuits themselves is the caller's outside work.
#[derive(Debug, Clone, PartialEq, Eq)]
pub struct ExtendCommand {
    pub filters: Vec<FindFilter>,
}

impl ExtendCommand {
    /// The relays the test would try, in snapshot order: exactly those the
    /// filters match.
    pub fn targets(&self, snapshot: &Snapshot) -> (picked: Vec<usize>)
        requires
            spec_filters_wf(self.filters@),
        ensures
            forall|k: int|
                0 <= k < picked@.len() ==> (#[trigger] picked@[k]) < snapshot.relays@.len()
                    && spec_set_matches(self.filters@, snapshot.relays@[picked@[k] as int]),
            forall|k1: int, k2: int|
                0 <= k1 < k2 < picked@.len() ==> picked@[k1] < picked@[k2],
            forall|i: int|
                0 <= i < snapshot.relays@.len() && spec_set_matches(
                    self.filters@,
                    #[trigger] snapshot.relays@[i],
                ) ==> exists|k: int| 0 <= k < picked@.len() && picked@[k] == i,
            picked@.len() == spec_match_count(self.filters@, snapshot.relays@),
    {
        filter_relays(&self.filters, snapshot)
    }
}

#[derive(Debug, Clone, PartialEq, Eq)]
pub enum TestSubCommand {
    Extend(ExtendCommand),
}

#[derive(Debug, Clone, PartialEq, Eq)]
pub struct TestCommand {
    pub subcommand: TestSubCommand,
}

// ---------------------------------------------------------------------------
// Dispatch
// ---------------------------------------------------------------------------

/// The closed set of commands.
#[derive(Debug, Clone, PartialEq, Eq)]
pub enum SubCommand {
    Config(ConfigCommand),
    Count(CountCommand),
    Find(FindCommand),
    Like(LikeCommand),
    Sybil(SybilCommand),
    Test(TestCommand),
}

/// The parsed invocation: one subcommand.
#[derive(Debug, Clone, PartialEq, Eq)]
pub struct Opts {
    pub subcommand: SubCommand,
}

} // verus!
