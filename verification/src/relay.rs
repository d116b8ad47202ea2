use vstd::prelude::*;

use crate::policy::PortPolicy;
use crate::text;

verus! {

// ---------------------------------------------------------------------------
// Flags
// ---------------------------------------------------------------------------

/// A bitset of directory flags assigned to a relay.
#[derive(Clone, Copy, Debug, PartialEq, Eq, Structural)]
pub struct RelayFlags {
    pub bits: u16,
}

pub const FLAG_AUTHORITY: u16 = 0x1;

pub const FLAG_BAD_EXIT: u16 = 0x2;

pub const FLAG_EXIT: u16 = 0x4;

pub const FLAG_FAST: u16 = 0x8;

pub const FLAG_GUARD: u16 = 0x10;

pub const FLAG_HSDIR: u16 = 0x20;

pub const FLAG_MIDDLE_ONLY: u16 = 0x40;

pub const FLAG_NO_ED_CONSENSUS: u16 = 0x80;

pub const FLAG_RUNNING: u16 = 0x100;

pub const FLAG_STABLE: u16 = 0x200;

pub const FLAG_STALE_DESC: u16 = 0x400;

pub const FLAG_V2DIR: u16 = 0x800;

pub const FLAG_VALID: u16 = 0x1000;

impl RelayFlags {
    /// True iff every flag set in `other` is also set in `self`.
    pub fn contains(&self, other: &RelayFlags) -> (r: bool)
        ensures
            r == ((self.bits & other.bits) == other.bits),
    {
        (self.bits & other.bits) == other.bits
    }
}

/// The flag named by a lowercase-insensitive keyword; an unknown keyword
/// names the empty set.
pub open spec fn spec_routerflag(s: Seq<char>) -> u16 {
    let l = text::spec_lower(s);
    if l == "authority"@ {
        FLAG_AUTHORITY
    } else if l == "badexit"@ {
        FLAG_BAD_EXIT
    } else if l == "exit"@ {
        FLAG_EXIT
    } else if l == "fast"@ {
        FLAG_FAST
    } else if l == "guard"@ {
        FLAG_GUARD
    } else if l == "hsdir"@ {
        FLAG_HSDIR
    } else if l == "middleonly"@ {
        FLAG_MIDDLE_ONLY
    } else if l == "noedconsensus"@ {
        FLAG_NO_ED_CONSENSUS
    } else if l == "running"@ {
        FLAG_RUNNING
    } else if l == "stable"@ {
        FLAG_STABLE
    } else if l == "staledesc"@ {
        FLAG_STALE_DESC
    } else if l == "v2dir"@ {
        FLAG_V2DIR
    } else if l == "valid"@ {
        FLAG_VALID
    } else {
        0
    }
}

/// Maps a flag keyword, in any letter case, to its bit.
pub fn parse_routerflag(f: &str) -> (r: RelayFlags)
    ensures
        r.bits == spec_routerflag(f@),
{
    let l = text::to_lower(f);
    let ls = l.as_str();
    if text::str_eq(ls, "authority") {
        RelayFlags { bits: FLAG_AUTHORITY }
    } else if text::str_eq(ls, "badexit") {
        RelayFlags { bits: FLAG_BAD_EXIT }
    } else if text::str_eq(ls, "exit") {
        RelayFlags { bits: FLAG_EXIT }
    } else if text::str_eq(ls, "fast") {
        RelayFlags { bits: FLAG_FAST }
    } else if text::str_eq(ls, "guard") {
        RelayFlags { bits: FLAG_GUARD }
    } else if text::str_eq(ls, "hsdir") {
        RelayFlags { bits: FLAG_HSDIR }
    } else if text::str_eq(ls, "middleonly") {
        RelayFlags { bits: FLAG_MIDDLE_ONLY }
    } else if text::str_eq(ls, "noedconsensus") {
        RelayFlags { bits: FLAG_NO_ED_CONSENSUS }
    } else if text::str_eq(ls, "running") {
        RelayFlags { bits: FLAG_RUNNING }
    } else if text::str_eq(ls, "stable") {
        RelayFlags { bits: FLAG_STABLE }
    } else if text::str_eq(ls, "staledesc") {
        RelayFlags { bits: FLAG_STALE_DESC }
    } else if text::str_eq(ls, "v2dir") {
        RelayFlags { bits: FLAG_V2DIR }
    } else if text::str_eq(ls, "valid") {
        RelayFlags { bits: FLAG_VALID }
    } else {
        RelayFlags { bits: 0 }
    }
}

// ---------------------------------------------------------------------------
// Addresses, weight, records
// ---------------------------------------------------------------------------

/// One onion-routing listener address of a relay. A v4 address keeps its
/// 32 bits in the low end of `ip`.
#[derive(Clone, Copy, Debug, PartialEq, Eq, Structural)]
pub struct OrPort {
    pub v6: bool,
    pub ip: u128,
    pub port: u16,
}

impl OrPort {
    /// A v4 address fits 32 bits.
    pub open spec fn wf(&self) -> bool {
        !self.v6 ==> self.ip < 0x1_0000_0000
    }
}

/// A relay's consensus weight, as measured or self-declared.
#[derive(Clone, Copy, Debug, PartialEq, Eq, Structural)]
pub enum RelayWeight {
    Unmeasured(u64),
    Measured(u64),
}

/// One record of the directory snapshot.
#[derive(Debug, Clone, PartialEq, Eq)]
pub struct RelayRecord {
    /// Relay nickname.
    pub nickname: String,
    /// RSA identity, 40 lowercase hex characters.
    pub rsa_hex: String,
    /// Ed25519 identity, 43 characters of its usual encoding.
    pub ed_id: String,
    /// Onion-routing listener addresses.
    pub orports: Vec<OrPort>,
    /// Directory flags.
    pub flags: RelayFlags,
    /// Version string, if the relay announced a parseable one.
    pub version: Option<String>,
    /// Consensus weight.
    pub weight: RelayWeight,
    /// Port policy for v4 exit traffic.
    pub ipv4_policy: PortPolicy,
    /// Port policy for v6 exit traffic.
    pub ipv6_policy: PortPolicy,
    /// RSA identities of declared family members.
    pub family: Vec<String>,
}

pub open spec fn is_lower_hex_char(c: char) -> bool {
    ('0' <= c && c <= '9') || ('a' <= c && c <= 'f')
}

impl RelayRecord {
    /// Well-formedness of a record: identities have their canonical shapes,
    /// addresses fit their family, and the textual fields are short enough
    /// that signature building and distance sums stay inside machine
    /// integers.
    pub open spec fn wf(&self) -> bool {
        &&& self.rsa_hex@.len() == 40
        &&& forall|i: int| 0 <= i < 40 ==> is_lower_hex_char(#[trigger] self.rsa_hex@[i])
        &&& self.ed_id@.len() == 43
        &&& self.nickname@.len() <= 0x10000
        &&& (self.version matches Some(v) ==> v@.len() <= 0x10000)
        &&& self.orports@.len() <= 0x1000
        &&& forall|i: int| 0 <= i < self.orports@.len() ==> (#[trigger] self.orports@[i]).wf()
    }
}

/// An immutable point-in-time set of relay records.
#[derive(Debug, Clone, PartialEq, Eq)]
pub struct Snapshot {
    pub relays: Vec<RelayRecord>,
}

impl Snapshot {
    pub open spec fn wf(&self) -> bool {
        forall|i: int| 0 <= i < self.relays@.len() ==> (#[trigger] self.relays@[i]).wf()
    }
}

// ---------------------------------------------------------------------------
// Textual forms
// ---------------------------------------------------------------------------

/// The v6 groups of an address, most significant first, joined by `sep`.
pub open spec fn spec_v6_groups(ip: u128, sep: Seq<char>) -> Seq<char> {
    text::hex_seq(((ip / 0x1_0000_0000_0000_0000_0000_0000_0000) % 0x10000) as nat) + sep
        + text::hex_seq(((ip / 0x1_0000_0000_0000_0000_0000_0000) % 0x10000) as nat) + sep
        + text::hex_seq(((ip / 0x1_0000_0000_0000_0000_0000) % 0x10000) as nat) + sep
        + text::hex_seq(((ip / 0x1_0000_0000_0000_0000) % 0x10000) as nat) + sep + text::hex_seq(
        ((ip / 0x1_0000_0000_0000) % 0x10000) as nat,
    ) + sep + text::hex_seq(((ip / 0x1_0000_0000) % 0x10000) as nat) + sep + text::hex_seq(
        ((ip / 0x1_0000) % 0x10000) as nat,
    ) + sep + text::hex_seq((ip % 0x10000) as nat)
}

/// The dotted quad of a v4 address held in the low 32 bits.
pub open spec fn spec_v4_text(ip: u128) -> Seq<char> {
    text::dec_seq(((ip / 0x100_0000) % 0x100) as nat) + seq!['.'] + text::dec_seq(
        ((ip / 0x1_0000) % 0x100) as nat,
    ) + seq!['.'] + text::dec_seq(((ip / 0x100) % 0x100) as nat) + seq!['.'] + text::dec_seq(
        (ip % 0x100) as nat,
    )
}

/// The bare address: dotted quad, or full lowercase-hex v6 groups joined by
/// colons.
pub open spec fn spec_ip_text(a: OrPort) -> Seq<char> {
    if a.v6 {
        spec_v6_groups(a.ip, seq![':'])
    } else {
        spec_v4_text(a.ip)
    }
}

/// The address with its port, a v6 address in brackets.
pub open spec fn spec_orport_text(a: OrPort) -> Seq<char> {
    if a.v6 {
        seq!['['] + spec_v6_groups(a.ip, seq![':']) + seq![']'] + seq![':'] + text::dec_seq(
            a.port as nat,
        )
    } else {
        spec_v4_text(a.ip) + seq![':'] + text::dec_seq(a.port as nat)
    }
}

/// The address-with-port text with every colon dropped, the form used in
/// similarity signatures.
pub open spec fn spec_orport_nosep(a: OrPort) -> Seq<char> {
    if a.v6 {
        seq!['['] + spec_v6_groups(a.ip, Seq::empty()) + seq![']'] + text::dec_seq(a.port as nat)
    } else {
        spec_v4_text(a.ip) + text::dec_seq(a.port as nat)
    }
}

/// Appends the v6 groups of `ip` joined by `sep` (at most one character).
fn push_v6_groups(out: &mut String, ip: u128, colon: bool)
    ensures
        final(out)@ == old(out)@ + spec_v6_groups(ip, if colon {
            seq![':']
        } else {
            Seq::<char>::empty()
        }),
{
    let g0: u16 = ((ip / 0x1_0000_0000_0000_0000_0000_0000_0000u128) % 0x10000u128) as u16;
    let g1: u16 = ((ip / 0x1_0000_0000_0000_0000_0000_0000u128) % 0x10000u128) as u16;
    let g2: u16 = ((ip / 0x1_0000_0000_0000_0000_0000u128) % 0x10000u128) as u16;
    let g3: u16 = ((ip / 0x1_0000_0000_0000_0000u128) % 0x10000u128) as u16;
    let g4: u16 = ((ip / 0x1_0000_0000_0000u128) % 0x10000u128) as u16;
    let g5: u16 = ((ip / 0x1_0000_0000u128) % 0x10000u128) as u16;
    let g6: u16 = ((ip / 0x1_0000u128) % 0x10000u128) as u16;
    let g7: u16 = (ip % 0x10000u128) as u16;
    text::push_hex_u16(out, g0);
    if colon {
        text::push_char(out, ':');
    }
    text::push_hex_u16(out, g1);
    if colon {
        text::push_char(out, ':');
    }
    text::push_hex_u16(out, g2);
    if colon {
        text::push_char(out, ':');
    }
    text::push_hex_u16(out, g3);
    if colon {
        text::push_char(out, ':');
    }
    text::push_hex_u16(out, g4);
    if colon {
        text::push_char(out, ':');
    }
    text::push_hex_u16(out, g5);
    if colon {
        text::push_char(out, ':');
    }
    text::push_hex_u16(out, g6);
    if colon {
        text::push_char(out, ':');
    }
    text::push_hex_u16(out, g7);
    proof {
        assert(out@ =~= old(out)@ + spec_v6_groups(ip, if colon {
            seq![':']
        } else {
            Seq::<char>::empty()
        }));
    }
}

/// Appends the dotted quad of a v4 address.
fn push_v4_text(out: &mut String, ip: u128)
    requires
        ip < 0x1_0000_0000,
    ensures
        final(out)@ == old(out)@ + spec_v4_text(ip),
{
    let o0: u128 = (ip / 0x100_0000u128) % 0x100u128;
    let o1: u128 = (ip / 0x1_0000u128) % 0x100u128;
    let o2: u128 = (ip / 0x100u128) % 0x100u128;
    let o3: u128 = ip % 0x100u128;
    text::push_dec(out, o0);
    text::push_char(out, '.');
    text::push_dec(out, o1);
    text::push_char(out, '.');
    text::push_dec(out, o2);
    text::push_char(out, '.');
    text::push_dec(out, o3);
    proof {
        assert(out@ =~= old(out)@ + spec_v4_text(ip));
    }
}

/// The bare address text of one listener.
pub fn fmt_ip(a: &OrPort) -> (r: String)
    requires
        a.wf(),
    ensures
        r@ == spec_ip_text(*a),
{
    let mut out = String::new();
    if a.v6 {
        push_v6_groups(&mut out, a.ip, true);
    } else {
        push_v4_text(&mut out, a.ip);
    }
    proof {
        assert(out@ =~= spec_ip_text(*a));
    }
    out
}

/// The address-with-port text of one listener.
pub fn fmt_orport(a: &OrPort) -> (r: String)
    requires
        a.wf(),
    ensures
        r@ == spec_orport_text(*a),
{
    let mut out = String::new();
    if a.v6 {
        text::push_char(&mut out, '[');
        push_v6_groups(&mut out, a.ip, true);
        text::push_char(&mut out, ']');
        text::push_char(&mut out, ':');
        text::push_dec(&mut out, a.port as u128);
    } else {
        push_v4_text(&mut out, a.ip);
        text::push_char(&mut out, ':');
        text::push_dec(&mut out, a.port as u128);
    }
    proof {
        assert(out@ =~= spec_orport_text(*a));
    }
    out
}

// ---------------------------------------------------------------------------
// Similarity signatures
// ---------------------------------------------------------------------------

/// The concatenated separator-free listener texts of a record.
pub open spec fn spec_orports_sig(addrs: Seq<OrPort>) -> Seq<char>
    decreases addrs.len(),
{
    if addrs.len() == 0 {
        Seq::empty()
    } else {
        spec_orports_sig(addrs.drop_last()) + spec_orport_nosep(addrs.last())
    }
}

/// The version text of a record; a relay without a parseable version reads
/// as empty.
pub open spec fn spec_version_text(r: RelayRecord) -> Seq<char> {
    match r.version {
        Some(v) => v@,
        None => Seq::empty(),
    }
}

/// The weight indicator: an unmeasured weight with a `0` behind it, a
/// measured one with a `0` before it.
pub open spec fn spec_weight_text(w: RelayWeight) -> Seq<char> {
    match w {
        RelayWeight::Unmeasured(u) => text::dec_seq(u as nat) + seq!['0'],
        RelayWeight::Measured(m) => seq!['0'] + text::dec_seq(m as nat),
    }
}

/// The five fields a similarity signature is made of.
pub open spec fn spec_relay_fields(r: RelayRecord) -> Seq<Seq<char>> {
    seq![
        r.nickname@,
        spec_orports_sig(r.orports@),
        text::dec_seq(r.flags.bits as nat),
        spec_version_text(r),
        spec_weight_text(r.weight),
    ]
}

/// The similarity signature: the five fields run together.
pub open spec fn spec_signature(r: RelayRecord) -> Seq<char> {
    r.nickname@ + spec_orports_sig(r.orports@) + text::dec_seq(r.flags.bits as nat)
        + spec_version_text(r) + spec_weight_text(r.weight)
}

/// The version text of a record; a relay without one yields the empty
/// string.
pub fn get_version(r: &RelayRecord) -> (v: String)
    ensures
        v@ == spec_version_text(*r),
{
    match &r.version {
        Some(v) => v.clone(),
        None => String::new(),
    }
}

/// The weight indicator of a record.
pub fn weight2string(r: &RelayRecord) -> (v: String)
    ensures
        v@ == spec_weight_text(r.weight),
{
    let mut out = String::new();
    match r.weight {
        RelayWeight::Unmeasured(u) => {
            text::push_dec(&mut out, u as u128);
            text::push_char(&mut out, '0');
        },
        RelayWeight::Measured(m) => {
            text::push_char(&mut out, '0');
            text::push_dec(&mut out, m as u128);
        },
    }
    proof {
        assert(out@ =~= spec_weight_text(r.weight));
    }
    out
}

fn push_orports_sig(out: &mut String, r: &RelayRecord)
    requires
        r.wf(),
    ensures
        final(out)@ == old(out)@ + spec_orports_sig(r.orports@),
{
    let n = r.orports.len();
    let mut i: usize = 0;
    while i < n
        invariant
            n == r.orports@.len(),
            i <= n,
            r.wf(),
            out@ =~= old(out)@ + spec_orports_sig(r.orports@.take(i as int)),
        decreases n - i,
    {
        let a = r.orports[i];
        proof {
            assert(a.wf());
        }
        if a.v6 {
            text::push_char(out, '[');
            push_v6_groups(out, a.ip, false);
            text::push_char(out, ']');
            text::push_dec(out, a.port as u128);
        } else {
            push_v4_text(out, a.ip);
            text::push_dec(out, a.port as u128);
        }
        proof {
            assert(r.orports@.take(i + 1).drop_last() =~= r.orports@.take(i as int));
            assert(r.orports@.take(i + 1).last() == a);
            assert(out@ =~= old(out)@ + spec_orports_sig(r.orports@.take(i + 1)));
        }
        i = i + 1;
    }
    proof {
        assert(r.orports@.take(n as int) =~= r.orports@);
    }
}

/// The five signature fields of a record, in order.
pub fn relay2vec(r: &RelayRecord) -> (v: Vec<String>)
    requires
        r.wf(),
    ensures
        v@.map_values(|x: String| x@) == spec_relay_fields(*r),
{
    let mut v: Vec<String> = Vec::new();
    v.push(r.nickname.clone());
    let mut addrs = String::new();
    push_orports_sig(&mut addrs, r);
    v.push(addrs);
    v.push(text::u64_to_dec(r.flags.bits as u64));
    v.push(get_version(r));
    v.push(weight2string(r));
    proof {
        assert(v@.map_values(|x: String| x@) =~= spec_relay_fields(*r));
    }
    v
}

/// The similarity signature of a record: its five fields run together.
pub fn relay2string(r: &RelayRecord) -> (s: String)
    requires
        r.wf(),
    ensures
        s@ == spec_signature(*r),
{
    let mut out = String::new();
    out.append(r.nickname.as_str());
    push_orports_sig(&mut out, r);
    text::push_dec(&mut out, r.flags.bits as u128);
    let version = get_version(r);
    out.append(version.as_str());
    let weight = weight2string(r);
    out.append(weight.as_str());
    proof {
        assert(out@ =~= spec_signature(*r));
    }
    out
}

/// The uppercase RSA identity of a record.
pub open spec fn spec_fp_upper(r: RelayRecord) -> Seq<char> {
    text::spec_upper(r.rsa_hex@)
}

/// The review line of a record: its uppercase RSA identity and its five
/// fields, comma-separated.
pub open spec fn spec_relay_print(r: RelayRecord) -> Seq<char> {
    spec_fp_upper(r) + ", "@ + r.nickname@ + ", "@ + spec_orports_sig(r.orports@) + ", "@
        + text::dec_seq(r.flags.bits as nat) + ", "@ + spec_version_text(r) + ", "@
        + spec_weight_text(r.weight)
}

/// The review line of a record, used when distances are reported.
pub fn relay2print(r: &RelayRecord) -> (s: String)
    requires
        r.wf(),
    ensures
        s@ == spec_relay_print(*r),
{
    let mut out = text::to_upper(r.rsa_hex.as_str());
    out.append(", ");
    out.append(r.nickname.as_str());
    out.append(", ");
    push_orports_sig(&mut out, r);
    out.append(", ");
    text::push_dec(&mut out, r.flags.bits as u128);
    out.append(", ");
    let version = get_version(r);
    out.append(version.as_str());
    out.append(", ");
    let weight = weight2string(r);
    out.append(weight.as_str());
    proof {
        assert(out@ =~= spec_relay_print(*r));
    }
    out
}

/// The uppercase RSA identities of the listed relays, in order.
pub fn relays2fps(snapshot: &Snapshot, picked: &Vec<usize>) -> (v: Vec<String>)
    requires
        forall|i: int| 0 <= i < picked@.len() ==> (#[trigger] picked@[i]) < snapshot.relays@.len(),
    ensures
        v@.len() == picked@.len(),
        forall|i: int|
            0 <= i < picked@.len() ==> (#[trigger] v@[i])@ == spec_fp_upper(
                snapshot.relays@[picked@[i] as int],
            ),
{
    let n = picked.len();
    let mut v: Vec<String> = Vec::new();
    let mut i: usize = 0;
    while i < n
        invariant
            n == picked@.len(),
            i <= n,
            forall|j: int|
                0 <= j < picked@.len() ==> (#[trigger] picked@[j]) < snapshot.relays@.len(),
            v@.len() == i,
            forall|j: int|
                0 <= j < i ==> (#[trigger] v@[j])@ == spec_fp_upper(
                    snapshot.relays@[picked@[j] as int],
                ),
        decreases n - i,
    {
        let idx = picked[i];
        v.push(text::to_upper(snapshot.relays[idx].rsa_hex.as_str()));
        i = i + 1;
    }
    v
}


// ---------------------------------------------------------------------------
// Length bounds
// ---------------------------------------------------------------------------

/// One listener's separator-free text stays short.
pub proof fn lemma_orport_nosep_len(a: OrPort)
    ensures
        spec_orport_nosep(a).len() <= 64,
{
    if a.v6 {
        text::lemma_hex_len_u16(((a.ip / 0x1_0000_0000_0000_0000_0000_0000_0000) % 0x10000) as nat);
        text::lemma_hex_len_u16(((a.ip / 0x1_0000_0000_0000_0000_0000_0000) % 0x10000) as nat);
        text::lemma_hex_len_u16(((a.ip / 0x1_0000_0000_0000_0000_0000) % 0x10000) as nat);
        text::lemma_hex_len_u16(((a.ip / 0x1_0000_0000_0000_0000) % 0x10000) as nat);
        text::lemma_hex_len_u16(((a.ip / 0x1_0000_0000_0000) % 0x10000) as nat);
        text::lemma_hex_len_u16(((a.ip / 0x1_0000_0000) % 0x10000) as nat);
        text::lemma_hex_len_u16(((a.ip / 0x1_0000) % 0x10000) as nat);
        text::lemma_hex_len_u16((a.ip % 0x10000) as nat);
        text::lemma_dec_len_u16(a.port as nat);
    } else {
        text::lemma_dec_len_u8(((a.ip / 0x100_0000) % 0x100) as nat);
        text::lemma_dec_len_u8(((a.ip / 0x1_0000) % 0x100) as nat);
        text::lemma_dec_len_u8(((a.ip / 0x100) % 0x100) as nat);
        text::lemma_dec_len_u8((a.ip % 0x100) as nat);
        text::lemma_dec_len_u16(a.port as nat);
    }
}

/// The listener part of a signature grows at most 64 characters per
/// listener.
pub proof fn lemma_orports_sig_len(addrs: Seq<OrPort>)
    ensures
        spec_orports_sig(addrs).len() <= addrs.len() * 64,
    decreases addrs.len(),
{
    if addrs.len() > 0 {
        lemma_orports_sig_len(addrs.drop_last());
        lemma_orport_nosep_len(addrs.last());
    }
}

/// A well-formed record's whole signature stays inside a fixed bound, so
/// that distance computations fit machine integers.
pub proof fn lemma_signature_len(r: RelayRecord)
    requires
        r.wf(),
    ensures
        spec_signature(r).len() <= 0x61000,
{
    lemma_orports_sig_len(r.orports@);
    assert(r.orports@.len() * 64 <= 0x1000 * 64) by (nonlinear_arith)
        requires
            r.orports@.len() <= 0x1000,
    ;
    text::lemma_dec_len_u16(r.flags.bits as nat);
    match r.weight {
        RelayWeight::Unmeasured(u) => {
            text::lemma_dec_len_u64(u as nat);
        },
        RelayWeight::Measured(m) => {
            text::lemma_dec_len_u64(m as nat);
        },
    }
}


/// Lowercase hex digit.
pub fn is_lower_hex(c: char) -> (r: bool)
    ensures
        r == is_lower_hex_char(c),
{
    ('0' <= c && c <= '9') || ('a' <= c && c <= 'f')
}

impl RelayRecord {
    /// Decides well-formedness of one record.
    #[verifier::loop_isolation(false)]
    pub fn check(&self) -> (r: bool)
        ensures
            r == self.wf(),
    {
        let rsa = self.rsa_hex.as_str();
        if rsa.unicode_len() != 40 {
            return false;
        }
        let mut i: usize = 0;
        while i < 40
            invariant
                i <= 40,
                self.rsa_hex@.len() == 40,
                forall|j: int| 0 <= j < i ==> is_lower_hex_char(#[trigger] self.rsa_hex@[j]),
            decreases 40 - i,
        {
            if !is_lower_hex(rsa.get_char(i)) {
                return false;
            }
            i = i + 1;
        }
        if self.ed_id.as_str().unicode_len() != 43 {
            return false;
        }
        if self.nickname.as_str().unicode_len() > 0x10000 {
            return false;
        }
        match &self.version {
            Some(v) => {
                if v.as_str().unicode_len() > 0x10000 {
                    return false;
                }
            },
            None => {},
        }
        if self.orports.len() > 0x1000 {
            return false;
        }
        let on = self.orports.len();
        let mut k: usize = 0;
        while k < on
            invariant
                k <= on,
                on == self.orports@.len(),
                forall|j: int| 0 <= j < k ==> (#[trigger] self.orports@[j]).wf(),
            decreases on - k,
        {
            let a = self.orports[k];
            if !a.v6 && a.ip >= 0x1_0000_0000 {
                return false;
            }
            k = k + 1;
        }
        true
    }
}

impl Snapshot {
    /// Decides well-formedness of the whole snapshot.
    pub fn check(&self) -> (r: bool)
        ensures
            r == self.wf(),
    {
        let n = self.relays.len();
        let mut i: usize = 0;
        while i < n
            invariant
                i <= n,
                n == self.relays@.len(),
                forall|j: int| 0 <= j < i ==> (#[trigger] self.relays@[j]).wf(),
            decreases n - i,
        {
            if !self.relays[i].check() {
                return false;
            }
            i = i + 1;
        }
        true
    }
}

} // verus!
