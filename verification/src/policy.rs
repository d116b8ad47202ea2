use vstd::prelude::*;

use crate::errors::Error;
use crate::text;

verus! {

/// What a policy rule does with the ports it covers.
#[derive(Clone, Copy, Debug, PartialEq, Eq, Structural)]
pub enum PolicyAction {
    Accept,
    Reject,
}

/// One rule of a port policy: an action over an inclusive port range.
#[derive(Clone, Copy, Debug, PartialEq, Eq, Structural)]
pub struct PolicyRule {
    pub action: PolicyAction,
    pub lo: u16,
    pub hi: u16,
}

/// An ordered list of port rules. A port is treated according to the first
/// rule whose range covers it; a port no rule covers is rejected.
#[derive(Debug, Clone, PartialEq, Eq)]
pub struct PortPolicy {
    pub rules: Vec<PolicyRule>,
}

/// First-match evaluation of a rule list on one port.
pub open spec fn spec_allows(rules: Seq<PolicyRule>, p: u16) -> bool
    decreases rules.len(),
{
    if rules.len() == 0 {
        false
    } else if rules[0].lo <= p && p <= rules[0].hi {
        rules[0].action is Accept
    } else {
        spec_allows(rules.skip(1), p)
    }
}

/// A well-formed policy: every range has `lo <= hi`, and the ranges appear in
/// strictly ascending order without overlapping.
pub open spec fn spec_policy_wf(rules: Seq<PolicyRule>) -> bool {
    &&& forall|i: int| 0 <= i < rules.len() ==> (#[trigger] rules[i]).lo <= rules[i].hi
    &&& forall|i: int| 0 < i < rules.len() ==> (#[trigger] rules[i]).lo > rules[i - 1].hi
}

impl PortPolicy {
    pub open spec fn view(&self) -> Seq<PolicyRule> {
        self.rules@
    }

    /// Whether this policy permits traffic to port `p`: the action of the
    /// first rule covering `p`, rejecting by default.
    pub fn allows_port(&self, p: u16) -> (r: bool)
        ensures
            r == spec_allows(self@, p),
    {
        let n = self.rules.len();
        let mut i: usize = 0;
        proof {
            assert(self.rules@.skip(0) =~= self.rules@);
        }
        while i < n
            invariant
                n == self.rules@.len(),
                i <= n,
                spec_allows(self.rules@, p) == spec_allows(self.rules@.skip(i as int), p),
            decreases n - i,
        {
            let rule = self.rules[i];
            proof {
                assert(self.rules@.skip(i as int)[0] == self.rules@[i as int]);
                assert(self.rules@.skip(i as int).skip(1) =~= self.rules@.skip(i + 1));
            }
            if rule.lo <= p && p <= rule.hi {
                return match rule.action {
                    PolicyAction::Accept => true,
                    PolicyAction::Reject => false,
                };
            }
            i = i + 1;
        }
        proof {
            assert(self.rules@.skip(n as int) =~= Seq::<PolicyRule>::empty());
        }
        false
    }

    /// Literal structural equality of rule lists, the semantics of a
    /// port-policy filter.
    pub fn eq_policy(&self, other: &PortPolicy) -> (r: bool)
        ensures
            r == (self@ == other@),
    {
        let n = self.rules.len();
        if n != other.rules.len() {
            return false;
        }
        let mut i: usize = 0;
        while i < n
            invariant
                n == self.rules@.len(),
                n == other.rules@.len(),
                i <= n,
                forall|j: int| 0 <= j < i ==> self.rules@[j] == other.rules@[j],
            decreases n - i,
        {
            let a = self.rules[i];
            let b = other.rules[i];
            if !(a == b) {
                return false;
            }
            i = i + 1;
        }
        proof {
            assert(self.rules@ =~= other.rules@);
        }
        true
    }

}


// ---------------------------------------------------------------------------
// The policy grammar: `<accept|reject> <port or range>,...`
// ---------------------------------------------------------------------------

/// Index just past the run of decimal digits starting at `i`.
pub open spec fn num_end(t: Seq<char>, i: int) -> int
    decreases t.len() - i,
    when 0 <= i <= t.len()
{
    if i < t.len() && text::is_dec_char(t[i]) {
        num_end(t, i + 1)
    } else {
        i
    }
}

pub proof fn lemma_num_end(t: Seq<char>, i: int)
    requires
        0 <= i <= t.len(),
    ensures
        i <= num_end(t, i) <= t.len(),
        forall|k: int| i <= k < num_end(t, i) ==> text::is_dec_char(t[k]),
        num_end(t, i) < t.len() ==> !text::is_dec_char(t[num_end(t, i)]),
    decreases t.len() - i,
{
    if i < t.len() && text::is_dec_char(t[i]) {
        lemma_num_end(t, i + 1);
    }
}

/// Numeric value of one decimal digit character.
pub open spec fn char_digit_val(c: char) -> nat {
    if text::is_dec_char(c) {
        ((c as u32) - 0x30) as nat
    } else {
        0
    }
}

/// Value of the decimal digits `t[i..j)`.
pub open spec fn dec_val(t: Seq<char>, i: int, j: int) -> nat
    decreases j - i,
    when i <= j
{
    if i >= j {
        0
    } else {
        dec_val(t, i, j - 1) * 10 + char_digit_val(t[j - 1])
    }
}

proof fn lemma_dec_val_mono(t: Seq<char>, i: int, j: int, k: int)
    requires
        i <= j <= k,
    ensures
        dec_val(t, i, j) <= dec_val(t, i, k),
    decreases k - j,
{
    if j < k {
        lemma_dec_val_mono(t, i, j, k - 1);
        assert(dec_val(t, i, k) == dec_val(t, i, k - 1) * 10 + char_digit_val(t[k - 1]));
        assert(dec_val(t, i, k - 1) * 10 >= dec_val(t, i, k - 1)) by (nonlinear_arith);
    }
}

/// One entry of the port list, starting at `i`: a port, or `lo-hi`.
/// Yields the bounds and the index just past the entry.
pub open spec fn parse_entry_at(t: Seq<char>, i: int) -> Option<(nat, nat, int)> {
    let j = num_end(t, i);
    if j == i {
        None
    } else if j < t.len() && t[j] == '-' {
        let k = num_end(t, j + 1);
        if k == j + 1 {
            None
        } else {
            Some((dec_val(t, i, j), dec_val(t, j + 1, k), k))
        }
    } else {
        Some((dec_val(t, i, j), dec_val(t, i, j), j))
    }
}

/// The comma-separated entries of the port list from `i` on. An entry is
/// valid only if its bounds fit a port, are not inverted, and lie strictly
/// above the previous entry (`prev` is the previous upper bound, -1 at the
/// start).
pub open spec fn parse_entries_at(t: Seq<char>, i: int, prev: int) -> Option<Seq<(u16, u16)>>
    decreases t.len() - i,
    when 0 <= i <= t.len() via parse_entries_at_dec
{
    match parse_entry_at(t, i) {
        None => None,
        Some((lo, hi, end)) => {
            if !(lo <= hi && hi <= 65535 && prev < lo) {
                None
            } else if end == t.len() {
                Some(seq![(lo as u16, hi as u16)])
            } else if t[end] == ',' {
                match parse_entries_at(t, end + 1, hi as int) {
                    None => None,
                    Some(rest) => Some(seq![(lo as u16, hi as u16)] + rest),
                }
            } else {
                None
            }
        },
    }
}

#[via_fn]
proof fn parse_entries_at_dec(t: Seq<char>, i: int, prev: int) {
    lemma_num_end(t, i);
    let j = num_end(t, i);
    if j < t.len() && t[j] == '-' {
        lemma_num_end(t, j + 1);
    }
}

/// The whole policy text: an action keyword, one space, then the entries;
/// the bare keyword stands for the policy with no rules.
pub open spec fn spec_parse_policy(s: Seq<char>) -> Option<Seq<PolicyRule>> {
    if s =~= "accept"@ {
        Some(Seq::<PolicyRule>::empty())
    } else if s =~= "reject"@ {
        Some(Seq::<PolicyRule>::empty())
    } else if s.len() >= 7 && (s.take(7) =~= "accept "@ || s.take(7) =~= "reject "@) {
        let action = if s.take(7) =~= "accept "@ {
            PolicyAction::Accept
        } else {
            PolicyAction::Reject
        };
        match parse_entries_at(s, 7, -1) {
            None => None,
            Some(ranges) => Some(
                ranges.map_values(|r: (u16, u16)| PolicyRule { action, lo: r.0, hi: r.1 }),
            ),
        }
    } else {
        None
    }
}

pub(crate) fn num_end_exec(t: &Vec<char>, i: usize) -> (r: usize)
    requires
        i <= t@.len(),
    ensures
        r == num_end(t@, i as int),
        i <= r <= t@.len(),
{
    let n = t.len();
    let mut j: usize = i;
    while j < n && text::is_dec_digit(t[j as usize])
        invariant
            i <= j <= n,
            n == t@.len(),
            num_end(t@, i as int) == num_end(t@, j as int),
        decreases n - j,
    {
        j = j + 1;
    }
    proof {
        lemma_num_end(t@, j as int);
    }
    j
}

/// Value of the digits `t[i..j)`, unless it exceeds the largest port.
pub(crate) fn dec_val_exec(t: &Vec<char>, i: usize, j: usize) -> (r: Option<u16>)
    requires
        i <= j <= t@.len(),
        forall|k: int| i <= k < j ==> text::is_dec_char(t@[k]),
    ensures
        match r {
            Some(v) => v as nat == dec_val(t@, i as int, j as int) && dec_val(
                t@,
                i as int,
                j as int,
            ) <= 65535,
            None => dec_val(t@, i as int, j as int) > 65535,
        },
{
    let mut acc: u32 = 0;
    let mut k: usize = i;
    while k < j
        invariant
            i <= k <= j <= t@.len(),
            forall|m: int| i <= m < j ==> text::is_dec_char(t@[m]),
            acc as nat == dec_val(t@, i as int, k as int),
            acc <= 65535,
        decreases j - k,
    {
        let c = t[k as usize];
        proof {
            assert(text::is_dec_char(c));
            assert((c as u32) >= 0x30 && (c as u32) <= 0x39);
        }
        let d: u32 = (c as u32) - 0x30;
        let next: u32 = acc * 10 + d;
        proof {
            assert(next as nat == dec_val(t@, i as int, k + 1));
        }
        if next > 65535 {
            proof {
                lemma_dec_val_mono(t@, i as int, k + 1, j as int);
            }
            return None;
        }
        acc = next;
        k = k + 1;
    }
    Some(acc as u16)
}

/// The comma-separated entries from `i` on, as `parse_entries_at` reads them.
fn parse_entries_exec(t: &Vec<char>, i: usize, prev: i32) -> (r: Option<Vec<(u16, u16)>>)
    requires
        i <= t@.len(),
        -1 <= prev <= 65535,
    ensures
        match r {
            Some(v) => parse_entries_at(t@, i as int, prev as int) == Some(v@),
            None => parse_entries_at(t@, i as int, prev as int) is None,
        },
    decreases t@.len() - i,
{
    let n = t.len();
    let j = num_end_exec(t, i);
    if j == i {
        return None;
    }
    proof {
        lemma_num_end(t@, i as int);
    }
    let lo_opt = dec_val_exec(t, i, j);
    let (lo, hi, end): (u16, u16, usize) = if j < n && t[j as usize] == '-' {
        let k = num_end_exec(t, j + 1);
        if k == j + 1 {
            return None;
        }
        proof {
            lemma_num_end(t@, j + 1);
        }
        let hi_opt = dec_val_exec(t, j + 1, k);
        match (lo_opt, hi_opt) {
            (Some(l), Some(h)) => (l, h, k),
            _ => {
                return None;
            },
        }
    } else {
        match lo_opt {
            Some(l) => (l, l, j),
            None => {
                return None;
            },
        }
    };
    if !(lo <= hi && (prev < 0 || (prev as u16) < lo)) {
        return None;
    }
    if end == n {
        let mut v: Vec<(u16, u16)> = Vec::new();
        v.push((lo, hi));
        proof {
            assert(v@ =~= seq![(lo, hi)]);
        }
        return Some(v);
    }
    if t[end as usize] == ',' {
        match parse_entries_exec(t, end + 1, hi as i32) {
            None => None,
            Some(rest) => {
                let mut v: Vec<(u16, u16)> = Vec::new();
                v.push((lo, hi));
                let mut m: usize = 0;
                let rn = rest.len();
                while m < rn
                    invariant
                        rn == rest@.len(),
                        m <= rn,
                        v@ =~= seq![(lo, hi)] + rest@.take(m as int),
                    decreases rn - m,
                {
                    v.push(rest[m as usize]);
                    proof {
                        assert(v@ =~= seq![(lo, hi)] + rest@.take(m + 1));
                    }
                    m = m + 1;
                }
                proof {
                    assert(rest@.take(rn as int) =~= rest@);
                }
                Some(v)
            },
        }
    } else {
        None
    }
}

/// Parses a textual port policy. Returns the policy exactly when the text
/// follows the grammar; otherwise reports the offending text.
pub fn parse_portpolicy(s: &str) -> (r: Result<PortPolicy, Error>)
    ensures
        match r {
            Ok(p) => spec_parse_policy(s@) == Some(p@),
            Err(e) => spec_parse_policy(s@) is None && (e matches Error::WrongPolicy(w) && w@ == s@),
        },
{
    proof {
        reveal_strlit("accept");
        reveal_strlit("reject");
        reveal_strlit("accept ");
        reveal_strlit("reject ");
    }
    if text::str_eq(s, "accept") || text::str_eq(s, "reject") {
        return Ok(PortPolicy { rules: Vec::new() });
    }
    let len = s.unicode_len();
    if len < 7 {
        return Err(Error::WrongPolicy(String::from_str(s)));
    }
    let head = s.substring_char(0, 7);
    proof {
        assert(head@ =~= s@.take(7));
    }
    let accept = text::str_eq(head, "accept ");
    let reject = text::str_eq(head, "reject ");
    if !accept && !reject {
        return Err(Error::WrongPolicy(String::from_str(s)));
    }
    let t = text::chars_vec(s);
    match parse_entries_exec(&t, 7, -1) {
        None => Err(Error::WrongPolicy(String::from_str(s))),
        Some(ranges) => {
            let action = if accept {
                PolicyAction::Accept
            } else {
                PolicyAction::Reject
            };
            let mut rules: Vec<PolicyRule> = Vec::new();
            let rn = ranges.len();
            let mut m: usize = 0;
            while m < rn
                invariant
                    rn == ranges@.len(),
                    m <= rn,
                    rules@ =~= ranges@.take(m as int).map_values(
                        |rg: (u16, u16)| PolicyRule { action, lo: rg.0, hi: rg.1 },
                    ),
                decreases rn - m,
            {
                let rg = ranges[m as usize];
                rules.push(PolicyRule { action, lo: rg.0, hi: rg.1 });
                proof {
                    assert(rules@ =~= ranges@.take(m + 1).map_values(
                        |rg: (u16, u16)| PolicyRule { action, lo: rg.0, hi: rg.1 },
                    ));
                }
                m = m + 1;
            }
            proof {
                assert(ranges@.take(rn as int) =~= ranges@);
            }
            Ok(PortPolicy { rules })
        },
    }
}



// ---------------------------------------------------------------------------
// Policy files: whitespace-separated tokens, rejoined and reparsed
// ---------------------------------------------------------------------------

/// First index at or after `i` holding a non-whitespace character.
pub open spec fn skip_ws(t: Seq<char>, i: int) -> int
    decreases t.len() - i,
    when 0 <= i <= t.len()
{
    if i < t.len() && text::is_space_char(t[i]) {
        skip_ws(t, i + 1)
    } else {
        i
    }
}

/// First index at or after `i` holding a whitespace character.
pub open spec fn tok_end(t: Seq<char>, i: int) -> int
    decreases t.len() - i,
    when 0 <= i <= t.len()
{
    if i < t.len() && !text::is_space_char(t[i]) {
        tok_end(t, i + 1)
    } else {
        i
    }
}

pub proof fn lemma_skip_ws(t: Seq<char>, i: int)
    requires
        0 <= i <= t.len(),
    ensures
        i <= skip_ws(t, i) <= t.len(),
        skip_ws(t, i) < t.len() ==> !text::is_space_char(t[skip_ws(t, i)]),
    decreases t.len() - i,
{
    if i < t.len() && text::is_space_char(t[i]) {
        lemma_skip_ws(t, i + 1);
    }
}

pub proof fn lemma_tok_end(t: Seq<char>, i: int)
    requires
        0 <= i <= t.len(),
    ensures
        i <= tok_end(t, i) <= t.len(),
        i < t.len() && !text::is_space_char(t[i]) ==> tok_end(t, i) > i,
    decreases t.len() - i,
{
    if i < t.len() && !text::is_space_char(t[i]) {
        lemma_tok_end(t, i + 1);
    }
}

/// The whitespace-separated tokens of `t`, from `i` on.
pub open spec fn ws_tokens_at(t: Seq<char>, i: int) -> Seq<Seq<char>>
    decreases t.len() - i,
    when 0 <= i <= t.len() via ws_tokens_at_dec
{
    let j = skip_ws(t, i);
    if j >= t.len() {
        Seq::empty()
    } else {
        let k = tok_end(t, j);
        seq![t.subrange(j, k)] + ws_tokens_at(t, k)
    }
}

#[via_fn]
proof fn ws_tokens_at_dec(t: Seq<char>, i: int) {
    lemma_skip_ws(t, i);
    let j = skip_ws(t, i);
    if j < t.len() {
        lemma_tok_end(t, j);
    }
}

/// The tail of a comma join: `,tok[i],tok[i+1],...`.
pub open spec fn join_rest(toks: Seq<Seq<char>>, i: int) -> Seq<char>
    decreases toks.len() - i,
    when 0 <= i
{
    if i >= toks.len() {
        Seq::empty()
    } else {
        seq![','] + toks[i] + join_rest(toks, i + 1)
    }
}

/// What a policy file's content reads as: its first token, one space, then
/// the remaining tokens joined with commas.
pub open spec fn normalized_policy_text(t: Seq<char>) -> Seq<char> {
    let toks = ws_tokens_at(t, 0);
    if toks.len() == 0 {
        Seq::empty()
    } else if toks.len() == 1 {
        toks[0] + seq![' ']
    } else {
        toks[0] + seq![' '] + toks[1] + join_rest(toks, 2)
    }
}

fn skip_ws_exec(t: &Vec<char>, i: usize) -> (r: usize)
    requires
        i <= t@.len(),
    ensures
        r == skip_ws(t@, i as int),
        i <= r <= t@.len(),
{
    let n = t.len();
    let mut j: usize = i;
    while j < n && text::is_space(t[j])
        invariant
            i <= j <= n,
            n == t@.len(),
            skip_ws(t@, i as int) == skip_ws(t@, j as int),
        decreases n - j,
    {
        j = j + 1;
    }
    proof {
        lemma_skip_ws(t@, j as int);
    }
    j
}

fn tok_end_exec(t: &Vec<char>, i: usize) -> (r: usize)
    requires
        i <= t@.len(),
    ensures
        r == tok_end(t@, i as int),
        i <= r <= t@.len(),
{
    let n = t.len();
    let mut j: usize = i;
    while j < n && !text::is_space(t[j])
        invariant
            i <= j <= n,
            n == t@.len(),
            tok_end(t@, i as int) == tok_end(t@, j as int),
        decreases n - j,
    {
        j = j + 1;
    }
    proof {
        lemma_tok_end(t@, j as int);
    }
    j
}

/// The whitespace-separated tokens of `t`.
pub(crate) fn ws_tokens_exec(t: &Vec<char>) -> (r: Vec<String>)
    ensures
        r@.map_values(|x: String| x@) == ws_tokens_at(t@, 0),
{
    let n = t.len();
    let mut r: Vec<String> = Vec::new();
    let mut i: usize = 0;
    while i < n
        invariant
            i <= n,
            n == t@.len(),
            ws_tokens_at(t@, 0) =~= r@.map_values(|x: String| x@) + ws_tokens_at(t@, i as int),
        decreases n - i,
    {
        let j = skip_ws_exec(t, i);
        if j >= n {
            proof {
                assert(ws_tokens_at(t@, i as int) =~= Seq::<Seq<char>>::empty());
                assert(ws_tokens_at(t@, 0) =~= r@.map_values(|x: String| x@));
            }
            return r;
        }
        let k = tok_end_exec(t, j);
        proof {
            lemma_skip_ws(t@, i as int);
            lemma_tok_end(t@, j as int);
            assert(k > j);
            assert(ws_tokens_at(t@, i as int) =~= seq![t@.subrange(j as int, k as int)]
                + ws_tokens_at(t@, k as int));
        }
        let tok = text::string_of_range(t, j, k);
        r.push(tok);
        proof {
            assert(ws_tokens_at(t@, 0) =~= r@.map_values(|x: String| x@) + ws_tokens_at(
                t@,
                k as int,
            ));
        }
        i = k;
    }
    proof {
        assert(ws_tokens_at(t@, i as int) =~= Seq::<Seq<char>>::empty());
        assert(ws_tokens_at(t@, 0) =~= r@.map_values(|x: String| x@));
    }
    r
}

/// Reads a port policy out of a policy file's content: the first
/// whitespace-separated token is the action keyword, the remaining tokens
/// are ports or ranges split by any mix of whitespace and commas.
pub fn portpolicy_from_file_text(content: &str) -> (r: Result<PortPolicy, Error>)
    ensures
        match r {
            Ok(p) => spec_parse_policy(normalized_policy_text(content@)) == Some(p@),
            Err(e) => spec_parse_policy(normalized_policy_text(content@)) is None && (
            e matches Error::WrongPolicy(w) && w@ == normalized_policy_text(
                content@,
            )),
        },
{
    let t = text::chars_vec(content);
    let toks = ws_tokens_exec(&t);
    let ghost toks_deep = toks@.map_values(|x: String| x@);
    let mut norm = String::new();
    if toks.len() > 0 {
        norm.append(toks[0].as_str());
        norm.append(" ");
        proof {
            reveal_strlit(" ");
            assert(norm@ =~= toks_deep[0] + seq![' ']);
        }
        if toks.len() > 1 {
            norm.append(toks[1].as_str());
            let tn = toks.len();
            let mut m: usize = 2;
            while m < tn
                invariant
                    2 <= m <= tn,
                    tn == toks@.len(),
                    toks_deep == toks@.map_values(|x: String| x@),
                    normalized_policy_text(t@) =~= norm@ + join_rest(toks_deep, m as int),
                decreases tn - m,
            {
                norm.append(",");
                norm.append(toks[m].as_str());
                proof {
                    reveal_strlit(",");
                    assert(toks_deep[m as int] == toks@[m as int]@);
                    assert(normalized_policy_text(t@) =~= norm@ + join_rest(toks_deep, m + 1));
                }
                m = m + 1;
            }
            proof {
                assert(join_rest(toks_deep, tn as int) =~= Seq::<char>::empty());
                assert(norm@ =~= normalized_policy_text(t@));
            }
        } else {
            proof {
                assert(norm@ =~= normalized_policy_text(t@));
            }
        }
    } else {
        proof {
            assert(norm@ =~= normalized_policy_text(t@));
        }
    }
    parse_portpolicy(norm.as_str())
}



/// Every successfully parsed policy is well-formed: ranges are not
/// inverted and appear strictly ascending.
pub proof fn lemma_entries_wf(t: Seq<char>, i: int, prev: int)
    requires
        0 <= i <= t.len(),
        parse_entries_at(t, i, prev) is Some,
    ensures
        ({
            let rs = parse_entries_at(t, i, prev).unwrap();
            &&& rs.len() > 0
            &&& forall|k: int| 0 <= k < rs.len() ==> (#[trigger] rs[k]).0 <= rs[k].1
            &&& prev < rs[0].0
            &&& forall|k: int| 0 < k < rs.len() ==> (#[trigger] rs[k]).0 > rs[k - 1].1
        }),
    decreases t.len() - i,
{
    lemma_num_end(t, i);
    let entry = parse_entry_at(t, i);
    let (lo, hi, end) = entry.unwrap();
    let j = num_end(t, i);
    if j < t.len() && t[j] == '-' {
        lemma_num_end(t, j + 1);
    }
    if end != t.len() && t[end] == ',' {
        lemma_entries_wf(t, end + 1, hi as int);
    }
}

/// A policy the grammar accepts has well-formed rules.
pub proof fn lemma_parsed_policy_wf(s: Seq<char>)
    requires
        spec_parse_policy(s) is Some,
    ensures
        spec_policy_wf(spec_parse_policy(s).unwrap()),
{
    let rules = spec_parse_policy(s).unwrap();
    if s =~= "accept"@ || s =~= "reject"@ {
    } else {
        let ranges = parse_entries_at(s, 7, -1).unwrap();
        lemma_entries_wf(s, 7, -1);
        assert(forall|k: int| 0 <= k < rules.len() ==> (#[trigger] rules[k]).lo == ranges[k].0
            && rules[k].hi == ranges[k].1);
    }
}

} // verus!
