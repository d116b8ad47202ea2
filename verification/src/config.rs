use vstd::prelude::*;

use crate::filter::{
    filter_relays, spec_filters_wf, spec_match_count, spec_set_matches, FindFilter, Filter,
};
use crate::fingerprint::RelayFingerprint;
use crate::relay::{fmt_ip, relays2fps, spec_fp_upper, spec_ip_text, OrPort, RelayRecord, Snapshot};
use crate::text;

verus! {

// ---------------------------------------------------------------------------
// Rule lines
// ---------------------------------------------------------------------------

/// One address line: the prefix, a space, and the bare address, a v6
/// address in brackets.
pub open spec fn spec_addr_line(prefix: Seq<char>, a: OrPort) -> Seq<char> {
    if a.v6 {
        prefix + seq![' '] + seq!['['] + spec_ip_text(a) + seq![']']
    } else {
        prefix + seq![' '] + spec_ip_text(a)
    }
}

/// The address lines of one relay, one per listener, each line ended by a
/// newline (a relay without listeners yields a single newline, as the empty
/// join does).
pub open spec fn spec_addr_rule(prefix: Seq<char>, r: RelayRecord) -> Seq<char> {
    spec_addr_lines_joined(prefix, r.orports@) + seq!['\n']
}

/// The address lines joined by newlines, none at the end.
pub open spec fn spec_addr_lines_joined(prefix: Seq<char>, addrs: Seq<OrPort>) -> Seq<char>
    decreases addrs.len(),
{
    if addrs.len() == 0 {
        Seq::empty()
    } else if addrs.len() == 1 {
        spec_addr_line(prefix, addrs[0])
    } else {
        spec_addr_lines_joined(prefix, addrs.drop_last()) + seq!['\n'] + spec_addr_line(
            prefix,
            addrs.last(),
        )
    }
}

/// One identity line: the prefix, a space, the relay's uppercase RSA
/// identity, and a newline.
pub open spec fn spec_fp_rule(prefix: Seq<char>, r: RelayRecord) -> Seq<char> {
    prefix + seq![' '] + spec_fp_upper(r) + seq!['\n']
}

/// The address lines of one relay under the given prefix.
pub fn fmt_addr_rule(prefix: &str, relay: &RelayRecord) -> (s: String)
    requires
        relay.wf(),
    ensures
        s@ == spec_addr_rule(prefix@, *relay),
{
    let mut out = String::new();
    let n = relay.orports.len();
    let mut i: usize = 0;
    while i < n
        invariant
            n == relay.orports@.len(),
            i <= n,
            relay.wf(),
            out@ =~= spec_addr_lines_joined(prefix@, relay.orports@.take(i as int)),
        decreases n - i,
    {
        if i > 0 {
            text::push_char(&mut out, '\n');
        }
        let a = relay.orports[i];
        proof {
            assert(a.wf());
        }
        out.append(prefix);
        text::push_char(&mut out, ' ');
        if a.v6 {
            text::push_char(&mut out, '[');
            let ip = fmt_ip(&a);
            out.append(ip.as_str());
            text::push_char(&mut out, ']');
        } else {
            let ip = fmt_ip(&a);
            out.append(ip.as_str());
        }
        proof {
            assert(relay.orports@.take(i + 1).drop_last() =~= relay.orports@.take(i as int));
            assert(relay.orports@.take(i + 1).last() == a);
            assert(relay.orports@.take(i + 1)[0] == relay.orports@[0]);
            assert(out@ =~= spec_addr_lines_joined(prefix@, relay.orports@.take(i + 1)));
        }
        i = i + 1;
    }
    proof {
        assert(relay.orports@.take(n as int) =~= relay.orports@);
    }
    text::push_char(&mut out, '\n');
    out
}

/// The identity line of one relay under the given prefix.
pub fn fmt_fp_rule(prefix: &str, relay: &RelayRecord) -> (s: String)
    ensures
        s@ == spec_fp_rule(prefix@, *relay),
{
    let mut out = String::new();
    out.append(prefix);
    text::push_char(&mut out, ' ');
    let fp = text::to_upper(relay.rsa_hex.as_str());
    out.append(fp.as_str());
    text::push_char(&mut out, '\n');
    proof {
        assert(out@ =~= spec_fp_rule(prefix@, *relay));
    }
    out
}

// ---------------------------------------------------------------------------
// The generation command
// ---------------------------------------------------------------------------

/// A block-list generation request: a ticket reference and the filters that
/// select the offending relays.
#[derive(Debug, Clone, PartialEq, Eq)]
pub struct BadCommand {
    pub ticket: u32,
    pub filters: Vec<FindFilter>,
}

/// The ticket header of every generated block, set off from earlier rules
/// by a blank line.
pub open spec fn spec_comment(ticket: u32) -> Seq<char> {
    "\n# Ticket: https://github.com/anyone-protocol/ator-protocol/issues/"@ + text::dec_seq(
        ticket as nat,
    ) + "\n"@
}

/// The uppercase display form of a fingerprint matcher.
pub open spec fn spec_fp_display(fp: RelayFingerprint) -> Seq<char> {
    match fp {
        RelayFingerprint::Rsa(f) => text::spec_upper(f@),
        RelayFingerprint::Ed(f) => text::spec_upper(f@),
    }
}

/// The fingerprints of one file-sourced list that the run did not find,
/// in list order.
pub open spec fn spec_missing_of_list(fps: Seq<RelayFingerprint>, found: Seq<Seq<char>>) -> Seq<
    Seq<char>,
>
    decreases fps.len(),
{
    if fps.len() == 0 {
        Seq::empty()
    } else {
        spec_missing_of_list(fps.drop_last(), found) + if found.contains(
            spec_fp_display(fps.last()),
        ) {
            Seq::empty()
        } else {
            seq![spec_fp_display(fps.last())]
        }
    }
}

/// All requested-but-absent fingerprints: those of every file-sourced
/// filter, in filter order, that the found set misses.
pub open spec fn spec_missing(filters: Seq<FindFilter>, found: Seq<Seq<char>>) -> Seq<Seq<char>>
    decreases filters.len(),
{
    if filters.len() == 0 {
        Seq::empty()
    } else {
        spec_missing(filters.drop_last(), found) + match filters.last().filter {
            Filter::FpsFileFilter(fps) => spec_missing_of_list(fps@, found),
            _ => Seq::empty(),
        }
    }
}

fn found_contains(found: &Vec<String>, fp: &String) -> (r: bool)
    ensures
        r == text::spec_views(found@).contains(fp@),
{
    let n = found.len();
    let mut i: usize = 0;
    while i < n
        invariant
            i <= n,
            n == found@.len(),
            forall|j: int| 0 <= j < i ==> (#[trigger] found@[j])@ != fp@,
        decreases n - i,
    {
        if text::str_eq(found[i].as_str(), fp.as_str()) {
            assert(text::spec_views(found@)[i as int] == fp@);
            return true;
        }
        i = i + 1;
    }
    proof {
        if text::spec_views(found@).contains(fp@) {
            let j = choose|j: int|
                0 <= j < text::spec_views(found@).len() && #[trigger] text::spec_views(found@)[j]
                    == fp@;
            assert(found@[j]@ == fp@);
        }
    }
    false
}

impl BadCommand {
    /// The ticket header of every generated block.
    pub fn comment(&self) -> (s: String)
        ensures
            s@ == spec_comment(self.ticket),
    {
        let mut out = String::from_str(
            "\n# Ticket: https://github.com/anyone-protocol/ator-protocol/issues/",
        );
        text::push_dec(&mut out, self.ticket as u128);
        out.append("\n");
        proof {
            assert(out@ =~= spec_comment(self.ticket));
        }
        out
    }

    /// The fingerprints named by this command's file-sourced filters that
    /// the run did not find, in file order.
    pub fn missing_fps(&self, found_fps: Vec<String>) -> (r: Vec<String>)
        ensures
            text::spec_views(r@) == spec_missing(
                self.filters@,
                text::spec_views(found_fps@),
            ),
    {
        let ghost found = text::spec_views(found_fps@);
        let mut r: Vec<String> = Vec::new();
        let nf = self.filters.len();
        let mut i: usize = 0;
        proof {
            assert(text::spec_views(r@) =~= spec_missing(self.filters@.take(0), found));
        }
        while i < nf
            invariant
                i <= nf,
                nf == self.filters@.len(),
                found == text::spec_views(found_fps@),
                text::spec_views(r@) == spec_missing(self.filters@.take(i as int), found),
            decreases nf - i,
        {
            proof {
                assert(self.filters@.take(i + 1).drop_last() =~= self.filters@.take(i as int));
                assert(self.filters@.take(i + 1).last() == self.filters@[i as int]);
            }
            match &self.filters[i].filter {
                Filter::FpsFileFilter(fps) => {
                    let ln = fps.len();
                    let mut j: usize = 0;
                    proof {
                        assert(spec_missing_of_list(fps@.take(0), found) =~= Seq::<
                            Seq<char>,
                        >::empty());
                    }
                    while j < ln
                        invariant
                            j <= ln,
                            ln == fps@.len(),
                            found == text::spec_views(found_fps@),
                            i < nf == self.filters@.len(),
                            self.filters@[i as int].filter == Filter::FpsFileFilter(*fps),
                            text::spec_views(r@) == spec_missing(
                                self.filters@.take(i as int),
                                found,
                            ) + spec_missing_of_list(fps@.take(j as int), found),
                        decreases ln - j,
                    {
                        proof {
                            assert(fps@.take(j + 1).drop_last() =~= fps@.take(j as int));
                            assert(fps@.take(j + 1).last() == fps@[j as int]);
                        }
                        let ghost prev = r@;
                        let disp = fps[j].to_display_string();
                        if !found_contains(&found_fps, &disp) {
                            r.push(disp);
                            proof {
                                assert(text::spec_views(r@) =~= text::spec_views(prev).push(spec_fp_display(fps@[j as int])));
                            }
                        }
                        proof {
                            assert(text::spec_views(r@) =~= spec_missing(
                                self.filters@.take(i as int),
                                found,
                            ) + spec_missing_of_list(fps@.take(j + 1), found));
                        }
                        j = j + 1;
                    }
                    proof {
                        assert(fps@.take(ln as int) =~= fps@);
                        assert(text::spec_views(r@) =~= spec_missing(
                            self.filters@.take(i + 1),
                            found,
                        ));
                    }
                },
                _ => {
                    proof {
                        assert(text::spec_views(r@) =~= spec_missing(
                            self.filters@.take(i + 1),
                            found,
                        ));
                    }
                },
            }
            i = i + 1;
        }
        proof {
            assert(self.filters@.take(nf as int) =~= self.filters@);
        }
        r
    }
}


// ---------------------------------------------------------------------------
// Blocks and artifacts
// ---------------------------------------------------------------------------

/// The identity lines of the picked relays, in order.
pub open spec fn spec_fp_rules_cat(
    prefix: Seq<char>,
    snapshot: Snapshot,
    picked: Seq<usize>,
) -> Seq<char>
    decreases picked.len(),
{
    if picked.len() == 0 {
        Seq::empty()
    } else {
        spec_fp_rules_cat(prefix, snapshot, picked.drop_last()) + spec_fp_rule(
            prefix,
            snapshot.relays@[picked.last() as int],
        )
    }
}

/// The address lines of the picked relays, in order.
pub open spec fn spec_addr_rules_cat(
    prefix: Seq<char>,
    snapshot: Snapshot,
    picked: Seq<usize>,
) -> Seq<char>
    decreases picked.len(),
{
    if picked.len() == 0 {
        Seq::empty()
    } else {
        spec_addr_rules_cat(prefix, snapshot, picked.drop_last()) + spec_addr_rule(
            prefix,
            snapshot.relays@[picked.last() as int],
        )
    }
}

/// One line per missing fingerprint: the prefix, a space, the fingerprint,
/// and a newline.
pub open spec fn spec_missing_lines(prefix: Seq<char>, missing: Seq<Seq<char>>) -> Seq<char>
    decreases missing.len(),
{
    if missing.len() == 0 {
        Seq::empty()
    } else {
        spec_missing_lines(prefix, missing.drop_last()) + prefix + seq![' '] + missing.last()
            + seq!['\n']
    }
}

/// The block appended to the address-rule artifact: the ticket header, the
/// matched fingerprints as a traceability comment, then one address rule
/// per listener of each matched relay.
pub open spec fn spec_bad_block(
    ticket: u32,
    snapshot: Snapshot,
    picked: Seq<usize>,
    addr_prefix: Seq<char>,
) -> Seq<char> {
    spec_comment(ticket) + "# Fingerprints:\n"@ + spec_fp_rules_cat(
        "#              "@,
        snapshot,
        picked,
    ) + spec_addr_rules_cat(addr_prefix, snapshot, picked)
}

/// The block appended to the identity-rule artifact: the ticket header, one
/// identity rule per matched relay, then one per missing fingerprint.
pub open spec fn spec_approved_block(
    ticket: u32,
    snapshot: Snapshot,
    picked: Seq<usize>,
    fp_prefix: Seq<char>,
    missing: Seq<Seq<char>>,
) -> Seq<char> {
    spec_comment(ticket) + spec_fp_rules_cat(fp_prefix, snapshot, picked) + spec_missing_lines(
        fp_prefix,
        missing,
    )
}

/// What an artifact file holds after a run: its earlier content with the
/// new block appended, nothing rewritten or dropped.
pub open spec fn spec_artifact_after(prior: Seq<char>, block: Seq<char>) -> Seq<char> {
    prior + block
}

/// Append-only law: a run keeps every earlier byte in place, and running
/// the same generation twice duplicates its block.
pub proof fn lemma_append_only(prior: Seq<char>, block: Seq<char>)
    ensures
        spec_artifact_after(prior, block).len() == prior.len() + block.len(),
        spec_artifact_after(prior, block).take(prior.len() as int) == prior,
        spec_artifact_after(spec_artifact_after(prior, block), block) == prior + block + block,
{
    assert(spec_artifact_after(prior, block).take(prior.len() as int) =~= prior);
    assert(spec_artifact_after(spec_artifact_after(prior, block), block) =~= prior + block
        + block);
}

/// An artifact's content after appending a block.
pub fn artifact_after(prior: &str, block: &str) -> (r: String)
    ensures
        r@ == spec_artifact_after(prior@, block@),
{
    let mut out = String::from_str(prior);
    out.append(block);
    out
}

/// What one generation run produces: the matched relays, the missing
/// fingerprints, and the blocks for the two artifacts, each absent when
/// the run writes nothing to that file.
#[derive(Debug, Clone, PartialEq, Eq)]
pub struct ConfigOutput {
    pub matched: Vec<usize>,
    pub missing: Vec<String>,
    pub bad: Option<String>,
    pub approved: Option<String>,
}

/// The uppercase RSA identities of the picked relays.
pub open spec fn spec_found(snapshot: Snapshot, picked: Seq<usize>) -> Seq<Seq<char>> {
    picked.map_values(|i: usize| spec_fp_upper(snapshot.relays@[i as int]))
}

/// Everything one generation run guarantees.
pub open spec fn spec_config_ok(
    cmd: BadCommand,
    snapshot: Snapshot,
    addr_tok: Seq<char>,
    fp_tok: Seq<char>,
    out: ConfigOutput,
) -> bool {
    let missing = spec_missing(cmd.filters@, spec_found(snapshot, out.matched@));
    &&& out.matched@.len() == spec_match_count(cmd.filters@, snapshot.relays@)
    &&& forall|k: int|
        0 <= k < out.matched@.len() ==> (#[trigger] out.matched@[k]) < snapshot.relays@.len()
            && spec_set_matches(cmd.filters@, snapshot.relays@[out.matched@[k] as int])
    &&& forall|k1: int, k2: int|
        0 <= k1 < k2 < out.matched@.len() ==> out.matched@[k1] < out.matched@[k2]
    &&& forall|i: int|
        0 <= i < snapshot.relays@.len() && spec_set_matches(
            cmd.filters@,
            #[trigger] snapshot.relays@[i],
        ) ==> exists|k: int| 0 <= k < out.matched@.len() && out.matched@[k] == i
    &&& text::spec_views(out.missing@) == missing
    &&& (match out.bad {
        Some(b) => addr_tok.len() > 0 && out.matched@.len() > 0 && b@ == spec_bad_block(
            cmd.ticket,
            snapshot,
            out.matched@,
            addr_tok,
        ),
        None => !(addr_tok.len() > 0 && out.matched@.len() > 0),
    })
    &&& (match out.approved {
        Some(a) => (out.matched@.len() > 0 || missing.len() > 0) && a@ == spec_approved_block(
            cmd.ticket,
            snapshot,
            out.matched@,
            fp_tok,
            missing,
        ),
        None => !(out.matched@.len() > 0 || missing.len() > 0),
    })
}

impl BadCommand {
    /// The block destined for the address-rule artifact.
    pub fn bad_block(&self, snapshot: &Snapshot, picked: &Vec<usize>, addr_prefix: &str) -> (s:
        String)
        requires
            snapshot.wf(),
            forall|k: int|
                0 <= k < picked@.len() ==> (#[trigger] picked@[k]) < snapshot.relays@.len(),
        ensures
            s@ == spec_bad_block(self.ticket, *snapshot, picked@, addr_prefix@),
    {
        let mut out = self.comment();
        out.append("# Fingerprints:\n");
        let n = picked.len();
        let mut i: usize = 0;
        proof {
            assert(picked@.take(0) =~= Seq::<usize>::empty());
        }
        while i < n
            invariant
                i <= n,
                n == picked@.len(),
                snapshot.wf(),
                forall|k: int|
                    0 <= k < picked@.len() ==> (#[trigger] picked@[k]) < snapshot.relays@.len(),
                out@ == spec_comment(self.ticket) + "# Fingerprints:\n"@ + spec_fp_rules_cat(
                    "#              "@,
                    *snapshot,
                    picked@.take(i as int),
                ),
            decreases n - i,
        {
            let rule = fmt_fp_rule("#              ", &snapshot.relays[picked[i]]);
            out.append(rule.as_str());
            proof {
                assert(picked@.take(i + 1).drop_last() =~= picked@.take(i as int));
                assert(picked@.take(i + 1).last() == picked@[i as int]);
            }
            i = i + 1;
        }
        proof {
            assert(picked@.take(n as int) =~= picked@);
        }
        let mut j: usize = 0;
        proof {
            assert(picked@.take(0) =~= Seq::<usize>::empty());
        }
        while j < n
            invariant
                j <= n,
                n == picked@.len(),
                snapshot.wf(),
                forall|k: int|
                    0 <= k < picked@.len() ==> (#[trigger] picked@[k]) < snapshot.relays@.len(),
                out@ == spec_comment(self.ticket) + "# Fingerprints:\n"@ + spec_fp_rules_cat(
                    "#              "@,
                    *snapshot,
                    picked@,
                ) + spec_addr_rules_cat(addr_prefix@, *snapshot, picked@.take(j as int)),
            decreases n - j,
        {
            proof {
                assert(snapshot.relays@[picked@[j as int] as int].wf());
            }
            let rule = fmt_addr_rule(addr_prefix, &snapshot.relays[picked[j]]);
            out.append(rule.as_str());
            proof {
                assert(picked@.take(j + 1).drop_last() =~= picked@.take(j as int));
                assert(picked@.take(j + 1).last() == picked@[j as int]);
            }
            j = j + 1;
        }
        proof {
            assert(picked@.take(n as int) =~= picked@);
        }
        out
    }

    /// The block destined for the identity-rule artifact.
    pub fn approved_block(
        &self,
        snapshot: &Snapshot,
        picked: &Vec<usize>,
        fp_prefix: &str,
        missing: &Vec<String>,
    ) -> (s: String)
        requires
            forall|k: int|
                0 <= k < picked@.len() ==> (#[trigger] picked@[k]) < snapshot.relays@.len(),
        ensures
            s@ == spec_approved_block(
                self.ticket,
                *snapshot,
                picked@,
                fp_prefix@,
                text::spec_views(missing@),
            ),
    {
        let mut out = self.comment();
        let n = picked.len();
        let mut i: usize = 0;
        proof {
            assert(picked@.take(0) =~= Seq::<usize>::empty());
        }
        while i < n
            invariant
                i <= n,
                n == picked@.len(),
                forall|k: int|
                    0 <= k < picked@.len() ==> (#[trigger] picked@[k]) < snapshot.relays@.len(),
                out@ == spec_comment(self.ticket) + spec_fp_rules_cat(
                    fp_prefix@,
                    *snapshot,
                    picked@.take(i as int),
                ),
            decreases n - i,
        {
            let rule = fmt_fp_rule(fp_prefix, &snapshot.relays[picked[i]]);
            out.append(rule.as_str());
            proof {
                assert(picked@.take(i + 1).drop_last() =~= picked@.take(i as int));
                assert(picked@.take(i + 1).last() == picked@[i as int]);
            }
            i = i + 1;
        }
        proof {
            assert(picked@.take(n as int) =~= picked@);
        }
        let mn = missing.len();
        let mut j: usize = 0;
        proof {
            assert(text::spec_views(missing@).take(0) =~= Seq::<Seq<char>>::empty());
            assert(text::spec_views(missing@.take(0)) =~= Seq::<Seq<char>>::empty());
        }
        while j < mn
            invariant
                j <= mn,
                mn == missing@.len(),
                out@ == spec_comment(self.ticket) + spec_fp_rules_cat(fp_prefix@, *snapshot, picked@)
                    + spec_missing_lines(fp_prefix@, text::spec_views(missing@.take(j as int))),
            decreases mn - j,
        {
            out.append(fp_prefix);
            out.append(" ");
            out.append(missing[j].as_str());
            out.append("\n");
            proof {
                reveal_strlit(" ");
                reveal_strlit("\n");
                assert(text::spec_views(missing@.take(j + 1)).drop_last() =~= text::spec_views(
                    missing@.take(j as int),
                ));
                assert(text::spec_views(missing@.take(j + 1)).last() == missing@[j as int]@);
                assert(out@ =~= spec_comment(self.ticket) + spec_fp_rules_cat(
                    fp_prefix@,
                    *snapshot,
                    picked@,
                ) + spec_missing_lines(fp_prefix@, text::spec_views(missing@.take(j + 1))));
            }
            j = j + 1;
        }
        proof {
            assert(missing@.take(mn as int) =~= missing@);
        }
        out
    }

    /// One generation run: evaluates the filters, derives the missing
    /// fingerprints, and builds the artifact blocks the run would append —
    /// the address block only under an address token and with matches, the
    /// identity block whenever there are matches or missing fingerprints.
    #[verifier::rlimit(60)]
    pub fn generate(&self, snapshot: &Snapshot, addr_prefix: &str, fp_prefix: &str) -> (out:
        ConfigOutput)
        requires
            snapshot.wf(),
            spec_filters_wf(self.filters@),
        ensures
            spec_config_ok(*self, *snapshot, addr_prefix@, fp_prefix@, out),
    {
        let matched = filter_relays(&self.filters, snapshot);
        let found = relays2fps(snapshot, &matched);
        proof {
            assert(text::spec_views(found@) =~= spec_found(*snapshot, matched@));
        }
        let missing = self.missing_fps(found);
        let bad: Option<String> = if addr_prefix.unicode_len() > 0 && matched.len() > 0 {
            Some(self.bad_block(snapshot, &matched, addr_prefix))
        } else {
            None
        };
        let approved: Option<String> = if matched.len() > 0 || missing.len() > 0 {
            Some(self.approved_block(snapshot, &matched, fp_prefix, &missing))
        } else {
            None
        };
        let out = ConfigOutput { matched, missing, bad, approved };
        proof {
            let m = spec_missing(self.filters@, spec_found(*snapshot, out.matched@));
            assert(out.matched@.len() == spec_match_count(self.filters@, snapshot.relays@));
            assert(text::spec_views(out.missing@) == m);
            assert(match out.bad {
                Some(b) => addr_prefix@.len() > 0 && out.matched@.len() > 0 && b@
                    == spec_bad_block(self.ticket, *snapshot, out.matched@, addr_prefix@),
                None => !(addr_prefix@.len() > 0 && out.matched@.len() > 0),
            });
            assert(match out.approved {
                Some(a) => (out.matched@.len() > 0 || m.len() > 0) && a@ == spec_approved_block(
                    self.ticket,
                    *snapshot,
                    out.matched@,
                    fp_prefix@,
                    m,
                ),
                None => !(out.matched@.len() > 0 || m.len() > 0),
            });
            assert(spec_config_ok(*self, *snapshot, addr_prefix@, fp_prefix@, out));
        }
        out
    }
}

// ---------------------------------------------------------------------------
// Dispatch
// ---------------------------------------------------------------------------

/// The config subcommands; each generates rules under its own token pair.
#[derive(Debug, Clone, PartialEq, Eq)]
pub enum ConfigSubCommand {
    /// Bad-exit rules.
    BadExit(BadCommand),
    /// Reject rules.
    Reject(BadCommand),
    /// Reject rules that also echo addresses into the address artifact.
    RejectBad(BadCommand),
    /// Middle-only rules.
    MiddleOnly(BadCommand),
}

#[derive(Debug, Clone, PartialEq, Eq)]
pub struct ConfigCommand {
    pub subcommand: ConfigSubCommand,
}

impl ConfigCommand {
    /// Runs the generation of the chosen subcommand under its token pair.
    pub fn generate(&self, snapshot: &Snapshot) -> (out: ConfigOutput)
        requires
            snapshot.wf(),
            match self.subcommand {
                ConfigSubCommand::BadExit(c) => spec_filters_wf(c.filters@),
                ConfigSubCommand::Reject(c) => spec_filters_wf(c.filters@),
                ConfigSubCommand::RejectBad(c) => spec_filters_wf(c.filters@),
                ConfigSubCommand::MiddleOnly(c) => spec_filters_wf(c.filters@),
            },
        ensures
            match self.subcommand {
                ConfigSubCommand::BadExit(c) => spec_config_ok(
                    c,
                    *snapshot,
                    ""@,
                    "!badexit"@,
                    out,
                ),
                ConfigSubCommand::Reject(c) => spec_config_ok(c, *snapshot, ""@, "!reject"@, out),
                ConfigSubCommand::RejectBad(c) => spec_config_ok(
                    c,
                    *snapshot,
                    "AuthDirReject"@,
                    "!reject"@,
                    out,
                ),
                ConfigSubCommand::MiddleOnly(c) => spec_config_ok(
                    c,
                    *snapshot,
                    ""@,
                    "!middleonly"@,
                    out,
                ),
            },
    {
        match &self.subcommand {
            ConfigSubCommand::BadExit(c) => c.generate(snapshot, "", "!badexit"),
            ConfigSubCommand::Reject(c) => c.generate(snapshot, "", "!reject"),
            ConfigSubCommand::RejectBad(c) => c.generate(snapshot, "AuthDirReject", "!reject"),
            ConfigSubCommand::MiddleOnly(c) => c.generate(snapshot, "", "!middleonly"),
        }
    }
}


} // verus!
