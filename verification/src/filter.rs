use vstd::prelude::*;

use crate::errors::Error;
use crate::fingerprint::{all_hex, spec_fp_matches, spec_fp_parsed, strip_dollar, RelayFingerprint};
use crate::policy::{
    dec_val, dec_val_exec, lemma_num_end, normalized_policy_text, num_end, num_end_exec,
    parse_portpolicy, portpolicy_from_file_text, spec_parse_policy, PortPolicy,
};
use crate::relay::{parse_routerflag, spec_routerflag, OrPort, RelayFlags, RelayRecord, Snapshot};
use crate::text;

verus! {

// ---------------------------------------------------------------------------
// Networks
// ---------------------------------------------------------------------------

/// An address or network to match listener addresses against. A v4 network
/// keeps its 32 bits in the low end of `addr`.
#[derive(Clone, Copy, Debug, PartialEq, Eq, Structural)]
pub struct IpNet {
    pub v6: bool,
    pub addr: u128,
    pub prefix: u8,
}

impl IpNet {
    pub open spec fn wf(&self) -> bool {
        if self.v6 {
            self.prefix <= 128
        } else {
            self.prefix <= 32 && self.addr < 0x1_0000_0000
        }
    }
}

/// What `ipnetwork` parses a CIDR text into, if anything.
pub uninterp spec fn cidr_of(s: Seq<char>) -> Option<IpNet>;

/// Relies on `ipnetwork::IpNetwork::from_str`: parses `addr` or
/// `addr/prefix` CIDR text, v4 or v6; a parsed prefix never exceeds the
/// address width.
#[verifier::external_body]
fn parse_cidr(s: &str) -> (r: Option<IpNet>)
    ensures
        r == cidr_of(s@),
        r matches Some(n) ==> n.wf(),
{
    match s.parse::<ipnetwork::IpNetwork>() {
        Ok(ipnetwork::IpNetwork::V4(n)) => Some(
            IpNet { v6: false, addr: u32::from(n.ip()) as u128, prefix: n.prefix() },
        ),
        Ok(ipnetwork::IpNetwork::V6(n)) => Some(
            IpNet { v6: true, addr: u128::from(n.ip()), prefix: n.prefix() },
        ),
        Err(_) => None,
    }
}

/// A listener address lies inside the network: same family, and equal in the
/// first `prefix` bits.
pub open spec fn spec_net_contains(net: IpNet, a: OrPort) -> bool {
    if net.v6 != a.v6 {
        false
    } else if net.v6 {
        net.prefix == 0 || (a.ip >> ((128 - net.prefix) as u32)) == (net.addr >> ((128
            - net.prefix) as u32))
    } else {
        net.prefix == 0 || ((a.ip as u32) >> ((32 - net.prefix) as u32)) == ((net.addr as u32) >> (
        (32 - net.prefix) as u32))
    }
}

/// Prefix containment of one listener address.
pub fn net_contains(net: &IpNet, a: &OrPort) -> (r: bool)
    requires
        net.wf(),
    ensures
        r == spec_net_contains(*net, *a),
{
    if net.v6 != a.v6 {
        false
    } else if net.v6 {
        net.prefix == 0 || (a.ip >> (128u32 - net.prefix as u32)) == (net.addr >> (128u32
            - net.prefix as u32))
    } else {
        net.prefix == 0 || ((a.ip as u32) >> (32u32 - net.prefix as u32)) == ((net.addr as u32)
            >> (32u32 - net.prefix as u32))
    }
}

// ---------------------------------------------------------------------------
// Predicates
// ---------------------------------------------------------------------------

/// A typed predicate over one relay record.
#[derive(Debug, Clone, PartialEq, Eq)]
pub enum Filter {
    /// Address or network containment over the listener addresses.
    Address(IpNet),
    /// Relay fingerprint.
    Fingerprint(RelayFingerprint),
    /// A file-sourced fingerprint list; any entry may match.
    FpsFileFilter(Vec<RelayFingerprint>),
    /// Relay flags, all of which must be present.
    Flags(RelayFlags),
    /// Nickname substring.
    Nickname(String),
    /// Exact listener port.
    Port(u16),
    /// Version substring.
    Version(String),
    /// Literal equality with the relay's v4 port policy.
    PortPolicyFilter(PortPolicy),
}

/// Predicate semantics on one record. A relay without a parseable version
/// never matches a version filter.
pub open spec fn spec_pred_matches(f: Filter, r: RelayRecord) -> bool {
    match f {
        Filter::Address(net) => exists|i: int|
            0 <= i < r.orports@.len() && spec_net_contains(net, #[trigger] r.orports@[i]),
        Filter::Fingerprint(fp) => spec_fp_matches(fp, r),
        Filter::FpsFileFilter(fps) => exists|i: int|
            0 <= i < fps@.len() && spec_fp_matches(#[trigger] fps@[i], r),
        Filter::Flags(fl) => (r.flags.bits & fl.bits) == fl.bits,
        Filter::Nickname(n) => text::contains_seq(r.nickname@, n@),
        Filter::Port(p) => exists|i: int|
            0 <= i < r.orports@.len() && (#[trigger] r.orports@[i]).port == p,
        Filter::Version(v) => r.version matches Some(ver) && text::contains_seq(ver@, v@),
        Filter::PortPolicyFilter(pp) => r.ipv4_policy@ == pp@,
    }
}

/// Evaluates one predicate on one record.
#[verifier::loop_isolation(false)]
pub fn match_predicate(f: &Filter, r: &RelayRecord) -> (res: bool)
    requires
        f matches Filter::Address(net) ==> net.wf(),
    ensures
        res == spec_pred_matches(*f, *r),
{
    match f {
        Filter::Address(net) => {
            let n = r.orports.len();
            let mut i: usize = 0;
            while i < n
                invariant
                    n == r.orports@.len(),
                    i <= n,
                    net.wf(),
                    forall|j: int| 0 <= j < i ==> !spec_net_contains(*net, r.orports@[j]),
                decreases n - i,
            {
                let a = r.orports[i];
                if net_contains(net, &a) {
                    proof {
                        assert(spec_net_contains(*net, r.orports@[i as int]));
                        assert(exists|k: int|
                            0 <= k < r.orports@.len() && spec_net_contains(
                                *net,
                                #[trigger] r.orports@[k],
                            ));
                        assert(spec_pred_matches(*f, *r));
                    }
                    return true;
                }
                i = i + 1;
            }
            false
        },
        Filter::Fingerprint(fp) => fp.match_relay(r),
        Filter::FpsFileFilter(fps) => {
            let n = fps.len();
            let mut i: usize = 0;
            while i < n
                invariant
                    n == fps@.len(),
                    i <= n,
                    forall|j: int| 0 <= j < i ==> !spec_fp_matches(fps@[j], *r),
                decreases n - i,
            {
                if fps[i].match_relay(r) {
                    proof {
                        assert(exists|k: int|
                            0 <= k < fps@.len() && spec_fp_matches(#[trigger] fps@[k], *r));
                        assert(spec_pred_matches(*f, *r));
                    }
                    return true;
                }
                i = i + 1;
            }
            false
        },
        Filter::Flags(fl) => r.flags.contains(fl),
        Filter::Nickname(n) => text::contains_substr(r.nickname.as_str(), n.as_str()),
        Filter::Port(p) => {
            let n = r.orports.len();
            let mut i: usize = 0;
            while i < n
                invariant
                    n == r.orports@.len(),
                    i <= n,
                    forall|j: int| 0 <= j < i ==> (#[trigger] r.orports@[j]).port != p,
                decreases n - i,
            {
                if r.orports[i].port == *p {
                    proof {
                        assert(exists|k: int|
                            0 <= k < r.orports@.len() && (#[trigger] r.orports@[k]).port == p);
                        assert(spec_pred_matches(*f, *r));
                    }
                    return true;
                }
                i = i + 1;
            }
            false
        },
        Filter::Version(v) => {
            match &r.version {
                Some(ver) => text::contains_substr(ver.as_str(), v.as_str()),
                None => false,
            }
        },
        Filter::PortPolicyFilter(pp) => r.ipv4_policy.eq_policy(pp),
    }
}

// ---------------------------------------------------------------------------
// Filter terms
// ---------------------------------------------------------------------------

/// One term of a filter set: a predicate, possibly negated.
#[derive(Debug, Clone, PartialEq, Eq)]
pub struct FindFilter {
    pub exclude: bool,
    pub filter: Filter,
}

/// Term semantics: the predicate's verdict, inverted on an excluding term.
pub open spec fn spec_term_matches(t: FindFilter, r: RelayRecord) -> bool {
    spec_pred_matches(t.filter, r) != t.exclude
}

/// A term is usable once any network in it is well-formed; parsing only
/// builds such terms.
pub open spec fn spec_term_wf(t: FindFilter) -> bool {
    t.filter matches Filter::Address(net) ==> net.wf()
}

impl FindFilter {
    pub fn new(n: bool, f: Filter) -> (r: FindFilter)
        ensures
            r.exclude == n,
            r.filter == f,
    {
        FindFilter { exclude: n, filter: f }
    }

    /// Evaluates the term on one record.
    pub fn match_relay(&self, relay: &RelayRecord) -> (res: bool)
        requires
            spec_term_wf(*self),
        ensures
            res == spec_term_matches(*self, *relay),
    {
        let mut ret = match_predicate(&self.filter, relay);
        ret = ret != self.exclude;
        ret
    }
}

/// Exclusion law: an excluding term matches a record exactly when the same
/// term without exclusion does not.
pub proof fn lemma_exclusion(f: Filter, r: RelayRecord)
    ensures
        spec_term_matches((FindFilter { exclude: true, filter: f }), r) == !spec_term_matches(
            (FindFilter { exclude: false, filter: f }),
            r,
        ),
{
}

// ---------------------------------------------------------------------------
// Filter sets
// ---------------------------------------------------------------------------

/// An ordered conjunction of filter terms.
#[derive(Debug, Clone, PartialEq, Eq)]
pub struct FindCommand {
    pub oneline: bool,
    pub filters: Vec<FindFilter>,
}

/// Set semantics: every term matches; the empty set matches every record.
pub open spec fn spec_set_matches(filters: Seq<FindFilter>, r: RelayRecord) -> bool {
    forall|i: int| 0 <= i < filters.len() ==> spec_term_matches(#[trigger] filters[i], r)
}

pub open spec fn spec_filters_wf(filters: Seq<FindFilter>) -> bool {
    forall|i: int| 0 <= i < filters.len() ==> spec_term_wf(#[trigger] filters[i])
}

/// How many records of `relays` the conjunction matches.
pub open spec fn spec_match_count(filters: Seq<FindFilter>, relays: Seq<RelayRecord>) -> nat
    decreases relays.len(),
{
    if relays.len() == 0 {
        0
    } else {
        spec_match_count(filters, relays.drop_last()) + if spec_set_matches(
            filters,
            relays.last(),
        ) {
            1nat
        } else {
            0nat
        }
    }
}

/// Conjunction law: a filter set matches a record exactly when each of its
/// terms matches it individually; in particular the empty set matches every
/// record.
pub proof fn lemma_conjunction(filters: Seq<FindFilter>, r: RelayRecord)
    ensures
        spec_set_matches(filters, r) == (forall|i: int|
            0 <= i < filters.len() ==> spec_term_matches(#[trigger] filters[i], r)),
        filters.len() == 0 ==> spec_set_matches(filters, r),
{
}

impl FindCommand {
    pub fn new(filters: Vec<FindFilter>) -> (r: FindCommand)
        ensures
            r.oneline == false,
            r.filters == filters,
    {
        FindCommand { oneline: false, filters }
    }

    /// Evaluates the conjunction on one record, stopping at the first
    /// failing term.
    pub fn match_relay(&self, relay: &RelayRecord) -> (res: bool)
        requires
            spec_filters_wf(self.filters@),
        ensures
            res == spec_set_matches(self.filters@, *relay),
    {
        terms_match(&self.filters, relay)
    }

    /// The indices of the records the conjunction matches, in snapshot
    /// order.
    pub fn filter(&self, snapshot: &Snapshot) -> (picked: Vec<usize>)
        requires
            spec_filters_wf(self.filters@),
        ensures
            forall|k: int|
                0 <= k < picked@.len() ==> (#[trigger] picked@[k]) < snapshot.relays@.len()
                    && spec_set_matches(self.filters@, snapshot.relays@[picked@[k] as int]),
            forall|k1: int, k2: int|
                0 <= k1 < k2 < picked@.len() ==> picked@[k1] < picked@[k2],
            forall|i: int|
                0 <= i < snapshot.relays@.len() && spec_set_matches(
                    self.filters@,
                    #[trigger] snapshot.relays@[i],
                ) ==> exists|k: int| 0 <= k < picked@.len() && picked@[k] == i,
            picked@.len() == spec_match_count(self.filters@, snapshot.relays@),
    {
        filter_relays(&self.filters, snapshot)
    }

    /// How many records the conjunction matches.
    pub fn count(&self, snapshot: &Snapshot) -> (c: usize)
        requires
            spec_filters_wf(self.filters@),
        ensures
            c == spec_match_count(self.filters@, snapshot.relays@),
    {
        let picked = self.filter(snapshot);
        picked.len()
    }
}

/// Evaluates a conjunction of terms on one record.
pub fn terms_match(filters: &Vec<FindFilter>, relay: &RelayRecord) -> (res: bool)
    requires
        spec_filters_wf(filters@),
    ensures
        res == spec_set_matches(filters@, *relay),
{
    let n = filters.len();
    let mut i: usize = 0;
    while i < n
        invariant
            n == filters@.len(),
            i <= n,
            spec_filters_wf(filters@),
            forall|j: int| 0 <= j < i ==> spec_term_matches(filters@[j], *relay),
        decreases n - i,
    {
        let t = &filters[i];
        if !t.match_relay(relay) {
            return false;
        }
        i = i + 1;
    }
    true
}

/// The indices of the records a conjunction of terms matches, in snapshot
/// order.
pub fn filter_relays(filters: &Vec<FindFilter>, snapshot: &Snapshot) -> (picked: Vec<usize>)
    requires
        spec_filters_wf(filters@),
    ensures
        forall|k: int|
            0 <= k < picked@.len() ==> (#[trigger] picked@[k]) < snapshot.relays@.len()
                && spec_set_matches(filters@, snapshot.relays@[picked@[k] as int]),
        forall|k1: int, k2: int| 0 <= k1 < k2 < picked@.len() ==> picked@[k1] < picked@[k2],
        forall|i: int|
            0 <= i < snapshot.relays@.len() && spec_set_matches(
                filters@,
                #[trigger] snapshot.relays@[i],
            ) ==> exists|k: int| 0 <= k < picked@.len() && picked@[k] == i,
        picked@.len() == spec_match_count(filters@, snapshot.relays@),
    {
        let n = snapshot.relays.len();
        let mut picked: Vec<usize> = Vec::new();
        let mut i: usize = 0;
        proof {
            assert(snapshot.relays@.take(0) =~= Seq::<RelayRecord>::empty());
        }
        while i < n
            invariant
                n == snapshot.relays@.len(),
                i <= n,
                spec_filters_wf(filters@),
                forall|k: int|
                    0 <= k < picked@.len() ==> (#[trigger] picked@[k]) < i && spec_set_matches(
                        filters@,
                        snapshot.relays@[picked@[k] as int],
                    ),
                forall|k1: int, k2: int|
                    0 <= k1 < k2 < picked@.len() ==> picked@[k1] < picked@[k2],
                forall|j: int|
                    0 <= j < i && spec_set_matches(filters@, #[trigger] snapshot.relays@[j])
                        ==> exists|k: int| 0 <= k < picked@.len() && picked@[k] == j,
                picked@.len() == spec_match_count(filters@, snapshot.relays@.take(i as int)),
            decreases n - i,
        {
            proof {
                assert(snapshot.relays@.take(i + 1).drop_last() =~= snapshot.relays@.take(
                    i as int,
                ));
                assert(snapshot.relays@.take(i + 1).last() == snapshot.relays@[i as int]);
            }
            let ghost prev = picked@;
            if terms_match(filters, &snapshot.relays[i]) {
                picked.push(i);
                proof {
                    assert forall|j: int|
                        0 <= j < i + 1 && spec_set_matches(
                            filters@,
                            #[trigger] snapshot.relays@[j],
                        ) implies exists|k: int| 0 <= k < picked@.len() && picked@[k] == j by {
                        if j < i {
                            let k = choose|k: int| 0 <= k < prev.len() && prev[k] == j;
                            assert(picked@[k] == j);
                        } else {
                            assert(picked@[prev.len() as int] == i as usize);
                        }
                    }
                }
            } else {
                proof {
                    assert forall|j: int|
                        0 <= j < i + 1 && spec_set_matches(
                            filters@,
                            #[trigger] snapshot.relays@[j],
                        ) implies exists|k: int| 0 <= k < picked@.len() && picked@[k] == j by {
                        assert(j < i);
                        let k = choose|k: int| 0 <= k < prev.len() && prev[k] == j;
                        assert(picked@[k] == j);
                    }
                }
            }
            i = i + 1;
        }
        proof {
            assert(snapshot.relays@.take(n as int) =~= snapshot.relays@);
        }
        picked
    }


// ---------------------------------------------------------------------------
// The token grammar: `[-]key:value`
// ---------------------------------------------------------------------------

/// First index at or after `i` holding a colon.
pub open spec fn colon_end(t: Seq<char>, i: int) -> int
    decreases t.len() - i,
    when 0 <= i <= t.len()
{
    if i < t.len() && t[i] != ':' {
        colon_end(t, i + 1)
    } else {
        i
    }
}

pub proof fn lemma_colon_end(t: Seq<char>, i: int)
    requires
        0 <= i <= t.len(),
    ensures
        i <= colon_end(t, i) <= t.len(),
        colon_end(t, i) < t.len() ==> t[colon_end(t, i)] == ':',
        forall|k: int| i <= k < colon_end(t, i) ==> t[k] != ':',
    decreases t.len() - i,
{
    if i < t.len() && t[i] != ':' {
        lemma_colon_end(t, i + 1);
    }
}

/// A leading dash marks an excluding term.
pub open spec fn tok_exclude(s: Seq<char>) -> bool {
    s.len() > 0 && s[0] == '-'
}

pub open spec fn tok_start(s: Seq<char>) -> int {
    if tok_exclude(s) {
        1
    } else {
        0
    }
}

pub open spec fn tok_colon(s: Seq<char>) -> int {
    colon_end(s, tok_start(s))
}

pub open spec fn tok_has_colon(s: Seq<char>) -> bool {
    tok_colon(s) < s.len()
}

/// The key of a token: what stands between the optional dash and the first
/// colon.
pub open spec fn tok_key(s: Seq<char>) -> Seq<char> {
    s.subrange(tok_start(s), tok_colon(s))
}

/// The value of a token: what stands behind the first colon.
pub open spec fn tok_value(s: Seq<char>) -> Seq<char> {
    s.subrange(tok_colon(s) + 1, s.len() as int)
}

pub open spec fn is_addr_key(k: Seq<char>) -> bool {
    k == "a"@ || k == "addr"@
}

pub open spec fn is_fp_key(k: Seq<char>) -> bool {
    k == "f"@ || k == "fp"@
}

pub open spec fn is_flag_key(k: Seq<char>) -> bool {
    k == "fl"@ || k == "flag"@
}

pub open spec fn is_nick_key(k: Seq<char>) -> bool {
    k == "n"@ || k == "nick"@
}

pub open spec fn is_port_key(k: Seq<char>) -> bool {
    k == "p"@ || k == "port"@
}

pub open spec fn is_version_key(k: Seq<char>) -> bool {
    k == "v"@ || k == "version"@
}

pub open spec fn is_pp_key(k: Seq<char>) -> bool {
    k == "pp"@ || k == "portpolicyfilter"@
}

/// The key of a token naming a policy file, whose value is a path to read.
pub open spec fn is_file_key(k: Seq<char>) -> bool {
    k == "pf"@ || k == "portpolicyfile"@
}

pub open spec fn is_known_key(k: Seq<char>) -> bool {
    is_addr_key(k) || is_fp_key(k) || is_flag_key(k) || is_nick_key(k) || is_port_key(k)
        || is_version_key(k) || is_pp_key(k)
}

/// A valid port value: decimal digits only, fitting 16 bits.
pub open spec fn spec_port_ok(v: Seq<char>) -> bool {
    v.len() > 0 && num_end(v, 0) == v.len() && dec_val(v, 0, v.len() as int) <= 65535
}

fn colon_end_exec(t: &Vec<char>, i: usize) -> (r: usize)
    requires
        i <= t@.len(),
    ensures
        r == colon_end(t@, i as int),
        i <= r <= t@.len(),
{
    let n = t.len();
    let mut j: usize = i;
    while j < n && t[j] != ':'
        invariant
            i <= j <= n,
            n == t@.len(),
            colon_end(t@, i as int) == colon_end(t@, j as int),
        decreases n - j,
    {
        j = j + 1;
    }
    proof {
        lemma_colon_end(t@, j as int);
    }
    j
}

impl FindFilter {
    /// Parses one filter token of the form `[-]key:value`. The policy-file
    /// key is answered by `policy_file_request` and `from_policy_file`
    /// instead, since its value names a file to read.
    pub fn from_str(s: &str) -> (r: Result<FindFilter, Error>)
        requires
            !(tok_has_colon(s@) && is_file_key(tok_key(s@))),
        ensures
            match r {
                Ok(t) => {
                    &&& tok_has_colon(s@)
                    &&& t.exclude == tok_exclude(s@)
                    &&& spec_term_wf(t)
                    &&& match t.filter {
                        Filter::Address(net) => is_addr_key(tok_key(s@)) && cidr_of(tok_value(s@))
                            == Some(net),
                        Filter::Fingerprint(fp) => is_fp_key(tok_key(s@)) && spec_fp_parsed(
                            tok_value(s@),
                            fp,
                        ),
                        Filter::FpsFileFilter(_) => false,
                        Filter::Flags(fl) => is_flag_key(tok_key(s@)) && fl.bits
                            == spec_routerflag(tok_value(s@)),
                        Filter::Nickname(nv) => is_nick_key(tok_key(s@)) && nv@ == tok_value(s@),
                        Filter::Port(p) => is_port_key(tok_key(s@)) && spec_port_ok(tok_value(s@))
                            && p as nat == dec_val(
                            tok_value(s@),
                            0,
                            tok_value(s@).len() as int,
                        ),
                        Filter::Version(vv) => is_version_key(tok_key(s@)) && vv@ == tok_value(
                            s@,
                        ),
                        Filter::PortPolicyFilter(pp) => is_pp_key(tok_key(s@))
                            && spec_parse_policy(tok_value(s@)) == Some(pp@),
                    }
                },
                Err(e) => match e {
                    Error::InvalidFilter(t) => t@ == s@ && !tok_has_colon(s@),
                    Error::UnrecognizedFilter(k) => tok_has_colon(s@) && k@ == tok_key(s@)
                        && !is_known_key(tok_key(s@)),
                    Error::InvalidAddress(t) => tok_has_colon(s@) && is_addr_key(tok_key(s@)) && t@
                        == tok_value(s@) && cidr_of(tok_value(s@)) is None,
                    Error::InvalidPort(t) => tok_has_colon(s@) && is_port_key(tok_key(s@)) && t@
                        == tok_value(s@) && !spec_port_ok(tok_value(s@)),
                    Error::UndecodableFingerprint(t) => tok_has_colon(s@) && is_fp_key(
                        tok_key(s@),
                    ) && t@ == tok_value(s@) && strip_dollar(tok_value(s@)).len() == 40 && !all_hex(
                        strip_dollar(tok_value(s@)),
                    ),
                    Error::WrongFingerprintLength(t) => tok_has_colon(s@) && is_fp_key(
                        tok_key(s@),
                    ) && t@ == tok_value(s@) && strip_dollar(tok_value(s@)).len() != 40
                        && strip_dollar(tok_value(s@)).len() != 43,
                    Error::WrongPolicy(w) => tok_has_colon(s@) && is_pp_key(tok_key(s@)) && w@
                        == tok_value(s@) && spec_parse_policy(tok_value(s@)) is None,
                    _ => false,
                },
            },
    {
        let t = text::chars_vec(s);
        let n = t.len();
        let (ex, start): (bool, usize) = if n > 0 && t[0] == '-' {
            (true, 1)
        } else {
            (false, 0)
        };
        let cpos = colon_end_exec(&t, start);
        if cpos == n {
            return Err(Error::InvalidFilter(String::from_str(s)));
        }
        let key = text::string_of_range(&t, start, cpos);
        let value = text::string_of_range(&t, cpos + 1, n);
        proof {
            assert(key@ =~= tok_key(s@));
            assert(value@ =~= tok_value(s@));
        }
        let ks = key.as_str();
        if text::str_eq(ks, "a") || text::str_eq(ks, "addr") {
            match parse_cidr(value.as_str()) {
                Some(net) => Ok(FindFilter { exclude: ex, filter: Filter::Address(net) }),
                None => Err(Error::InvalidAddress(value)),
            }
        } else if text::str_eq(ks, "fl") || text::str_eq(ks, "flag") {
            let fl = parse_routerflag(value.as_str());
            Ok(FindFilter { exclude: ex, filter: Filter::Flags(fl) })
        } else if text::str_eq(ks, "f") || text::str_eq(ks, "fp") {
            match RelayFingerprint::from_str(value.as_str()) {
                Ok(fp) => Ok(FindFilter { exclude: ex, filter: Filter::Fingerprint(fp) }),
                Err(e) => Err(e),
            }
        } else if text::str_eq(ks, "n") || text::str_eq(ks, "nick") {
            Ok(FindFilter { exclude: ex, filter: Filter::Nickname(value) })
        } else if text::str_eq(ks, "p") || text::str_eq(ks, "port") {
            let vv = text::chars_vec(value.as_str());
            let vn = vv.len();
            if vn == 0 {
                return Err(Error::InvalidPort(value));
            }
            let end = num_end_exec(&vv, 0);
            if end != vn {
                proof {
                    lemma_num_end(vv@, 0);
                }
                return Err(Error::InvalidPort(value));
            }
            proof {
                lemma_num_end(vv@, 0);
            }
            match dec_val_exec(&vv, 0, vn) {
                Some(p) => Ok(FindFilter { exclude: ex, filter: Filter::Port(p) }),
                None => Err(Error::InvalidPort(value)),
            }
        } else if text::str_eq(ks, "v") || text::str_eq(ks, "version") {
            Ok(FindFilter { exclude: ex, filter: Filter::Version(value) })
        } else if text::str_eq(ks, "pp") || text::str_eq(ks, "portpolicyfilter") {
            match parse_portpolicy(value.as_str()) {
                Ok(pp) => Ok(FindFilter { exclude: ex, filter: Filter::PortPolicyFilter(pp) }),
                Err(e) => Err(e),
            }
        } else {
            Err(Error::UnrecognizedFilter(key))
        }
    }

    /// Builds a port-policy term out of a policy file's content, for a token
    /// that `policy_file_request` answered.
    pub fn from_policy_file(exclude: bool, content: &str) -> (r: Result<FindFilter, Error>)
        ensures
            match r {
                Ok(t) => {
                    &&& t.exclude == exclude
                    &&& spec_term_wf(t)
                    &&& t.filter matches Filter::PortPolicyFilter(pp) && spec_parse_policy(
                        normalized_policy_text(content@),
                    ) == Some(pp@)
                },
                Err(e) => spec_parse_policy(normalized_policy_text(content@)) is None && (
                e matches Error::WrongPolicy(w) && w@ == normalized_policy_text(content@)),
            },
    {
        match portpolicy_from_file_text(content) {
            Ok(pp) => Ok(FindFilter { exclude, filter: Filter::PortPolicyFilter(pp) }),
            Err(e) => Err(e),
        }
    }
}

/// Answers, for a token whose key names a policy file, the exclusion mark
/// and the path to read; any other token is left to `FindFilter::from_str`.
pub fn policy_file_request(s: &str) -> (r: Option<(bool, String)>)
    ensures
        match r {
            Some(p) => tok_has_colon(s@) && is_file_key(tok_key(s@)) && p.0 == tok_exclude(s@)
                && p.1@ == tok_value(s@),
            None => !(tok_has_colon(s@) && is_file_key(tok_key(s@))),
        },
{
    let t = text::chars_vec(s);
    let n = t.len();
    let (ex, start): (bool, usize) = if n > 0 && t[0] == '-' {
        (true, 1)
    } else {
        (false, 0)
    };
    let cpos = colon_end_exec(&t, start);
    if cpos == n {
        return None;
    }
    let key = text::string_of_range(&t, start, cpos);
    proof {
        assert(key@ =~= tok_key(s@));
    }
    let ks = key.as_str();
    if text::str_eq(ks, "pf") || text::str_eq(ks, "portpolicyfile") {
        let value = text::string_of_range(&t, cpos + 1, n);
        proof {
            assert(value@ =~= tok_value(s@));
        }
        Some((ex, value))
    } else {
        None
    }
}


} // verus!
