use vstd::prelude::*;

use crate::errors::Error;
use crate::policy::{ws_tokens_at, ws_tokens_exec};
use crate::relay::{RelayRecord, Snapshot};
use crate::text;

verus! {

/// A relay identity as a filter matches it: a partial RSA hex string, or an
/// exact Ed25519 identity.
#[derive(Debug, Clone, PartialEq, Eq)]
pub enum RelayFingerprint {
    /// RSA identity fingerprint, matched as a hex substring.
    Rsa(String),
    /// Ed25519 identity fingerprint, matched exactly.
    Ed(String),
}

/// The fingerprint text with every dollar sign removed.
pub open spec fn strip_dollar(s: Seq<char>) -> Seq<char> {
    s.filter(|c: char| c != '$')
}

/// Every character is a hex digit, either case.
pub open spec fn all_hex(s: Seq<char>) -> bool {
    forall|i: int| 0 <= i < s.len() ==> text::is_hex_char(#[trigger] s[i])
}

/// Relies on `hex::decode`: it succeeds exactly on even-length strings of
/// hex digits (`0-9`, `a-f`, `A-F`).
#[verifier::external_body]
fn hex_decode_ok(s: &str) -> (r: bool)
    ensures
        r == (s@.len() % 2 == 0 && all_hex(s@)),
{
    hex::decode(s).is_ok()
}

/// The string with its dollar signs removed.
fn strip_dollar_exec(s: &str) -> (r: String)
    ensures
        r@ == strip_dollar(s@),
{
    let len = s.unicode_len();
    let mut r = String::new();
    let ghost pred = |c: char| c != '$';
    let mut i: usize = 0;
    proof {
        reveal(Seq::filter);
        assert(r@ =~= s@.take(0).filter(pred));
    }
    while i < len
        invariant
            len == s@.len(),
            i <= len,
            pred == (|c: char| c != '$'),
            r@ == s@.take(i as int).filter(pred),
        decreases len - i,
    {
        let c = s.get_char(i);
        proof {
            reveal(Seq::filter);
            assert(s@.take(i + 1).drop_last() =~= s@.take(i as int));
            assert(s@.take(i + 1).last() == s@[i as int]);
        }
        if c != '$' {
            text::push_char(&mut r, c);
        }
        i = i + 1;
    }
    proof {
        assert(s@.take(len as int) =~= s@);
    }
    r
}

impl RelayFingerprint {
    /// Parses a fingerprint: after dropping dollar signs, 40 hex characters
    /// are an RSA identity, 43 characters an Ed25519 identity, and
    /// everything else is rejected.
    pub fn from_str(s: &str) -> (r: Result<RelayFingerprint, Error>)
        ensures
            match r {
                Ok(RelayFingerprint::Rsa(f)) => f@ == strip_dollar(s@) && f@.len() == 40 && all_hex(
                    f@,
                ),
                Ok(RelayFingerprint::Ed(f)) => f@ == strip_dollar(s@) && f@.len() == 43,
                Err(Error::UndecodableFingerprint(t)) => t@ == s@ && strip_dollar(s@).len() == 40
                    && !all_hex(strip_dollar(s@)),
                Err(Error::WrongFingerprintLength(t)) => t@ == s@ && strip_dollar(s@).len() != 40
                    && strip_dollar(s@).len() != 43,
                _ => false,
            },
    {
        let f = strip_dollar_exec(s);
        let len = f.as_str().unicode_len();
        if len == 40 {
            if hex_decode_ok(f.as_str()) {
                Ok(RelayFingerprint::Rsa(f))
            } else {
                Err(Error::UndecodableFingerprint(String::from_str(s)))
            }
        } else if len == 43 {
            Ok(RelayFingerprint::Ed(f))
        } else {
            Err(Error::WrongFingerprintLength(String::from_str(s)))
        }
    }

    /// The uppercase text of the fingerprint, the form artifacts carry.
    pub fn to_display_string(&self) -> (r: String)
        ensures
            r@ == match self {
                RelayFingerprint::Rsa(f) => text::spec_upper(f@),
                RelayFingerprint::Ed(f) => text::spec_upper(f@),
            },
    {
        match self {
            RelayFingerprint::Rsa(f) => text::to_upper(f.as_str()),
            RelayFingerprint::Ed(f) => text::to_upper(f.as_str()),
        }
    }

    /// Whether this fingerprint matches a record: an RSA matcher as a
    /// case-folded substring of the record's RSA identity, an Ed25519
    /// matcher by exact equality.
    pub fn match_relay(&self, relay: &RelayRecord) -> (r: bool)
        ensures
            r == spec_fp_matches(*self, *relay),
    {
        match self {
            RelayFingerprint::Rsa(m) => {
                let needle = text::to_lower(m.as_str());
                text::contains_substr(relay.rsa_hex.as_str(), needle.as_str())
            },
            RelayFingerprint::Ed(m) => text::str_eq(m.as_str(), relay.ed_id.as_str()),
        }
    }
}

/// Fingerprint-filter semantics on one record.
pub open spec fn spec_fp_matches(fp: RelayFingerprint, relay: RelayRecord) -> bool {
    match fp {
        RelayFingerprint::Rsa(m) => text::contains_seq(relay.rsa_hex@, text::spec_lower(m@)),
        RelayFingerprint::Ed(m) => m@ == relay.ed_id@,
    }
}

/// Exact-identity semantics on one record: the text `s` names the record's
/// RSA identity (hex, case-insensitively) or its Ed25519 identity.
pub open spec fn spec_id_matches(s: Seq<char>, relay: RelayRecord) -> bool {
    let f = strip_dollar(s);
    ||| (f.len() == 40 && all_hex(f) && relay.rsa_hex@ == text::spec_lower(f))
    ||| (f.len() == 43 && relay.ed_id@ == f)
}

/// Finds the relay a fingerprint names: the first record whose RSA identity
/// equals the given hex (in any case), or whose Ed25519 identity equals the
/// given text.
pub fn id2relay(snapshot: &Snapshot, s: &str) -> (r: Result<usize, Error>)
    ensures
        match r {
            Ok(i) => i < snapshot.relays@.len() && spec_id_matches(s@, snapshot.relays@[i as int])
                && (forall|j: int| 0 <= j < i ==> !spec_id_matches(s@, snapshot.relays@[j])),
            Err(e) => e == Error::NoSuchRelay && (forall|j: int|
                0 <= j < snapshot.relays@.len() ==> !spec_id_matches(s@, snapshot.relays@[j])),
        },
{
    let fp = match RelayFingerprint::from_str(s) {
        Ok(fp) => fp,
        Err(_) => {
            proof {
                assert(forall|j: int|
                    0 <= j < snapshot.relays@.len() ==> !spec_id_matches(
                        s@,
                        snapshot.relays@[j],
                    ));
            }
            return Err(Error::NoSuchRelay);
        },
    };
    let n = snapshot.relays.len();
    let mut i: usize = 0;
    while i < n
        invariant
            n == snapshot.relays@.len(),
            i <= n,
            match fp {
                RelayFingerprint::Rsa(f) => f@ == strip_dollar(s@) && f@.len() == 40 && all_hex(
                    f@,
                ),
                RelayFingerprint::Ed(f) => f@ == strip_dollar(s@) && f@.len() == 43,
            },
            forall|j: int| 0 <= j < i ==> !spec_id_matches(s@, snapshot.relays@[j]),
        decreases n - i,
    {
        let hit = match &fp {
            RelayFingerprint::Rsa(f) => {
                let folded = text::to_lower(f.as_str());
                text::str_eq(snapshot.relays[i].rsa_hex.as_str(), folded.as_str())
            },
            RelayFingerprint::Ed(f) => text::str_eq(
                snapshot.relays[i].ed_id.as_str(),
                f.as_str(),
            ),
        };
        if hit {
            proof {
                assert(spec_id_matches(s@, snapshot.relays@[i as int]));
            }
            return Ok(i);
        }
        proof {
            assert(!spec_id_matches(s@, snapshot.relays@[i as int]));
        }
        i = i + 1;
    }
    Err(Error::NoSuchRelay)
}


/// What a fingerprint value parses into.
pub open spec fn spec_fp_parsed(v: Seq<char>, fp: RelayFingerprint) -> bool {
    match fp {
        RelayFingerprint::Rsa(f) => f@ == strip_dollar(v) && f@.len() == 40 && all_hex(f@),
        RelayFingerprint::Ed(f) => f@ == strip_dollar(v) && f@.len() == 43,
    }
}

/// A token that parses as a fingerprint.
pub open spec fn spec_fp_ok(v: Seq<char>) -> bool {
    let f = strip_dollar(v);
    (f.len() == 40 && all_hex(f)) || f.len() == 43
}

/// The tokens of a fingerprint file that parse.
pub open spec fn spec_good_fp_tokens(toks: Seq<Seq<char>>) -> Seq<Seq<char>> {
    toks.filter(|t: Seq<char>| spec_fp_ok(t))
}

/// The tokens of a fingerprint file that do not parse.
pub open spec fn spec_bad_fp_tokens(toks: Seq<Seq<char>>) -> Seq<Seq<char>> {
    toks.filter(|t: Seq<char>| !spec_fp_ok(t))
}

/// Reads a fingerprint list out of a file's content: one fingerprint per
/// whitespace-separated token. Malformed tokens are skipped and reported,
/// never fatal: the errors come back beside the parsed list.
pub fn fps_from_file_text(content: &str) -> (r: (Vec<RelayFingerprint>, Vec<Error>))
    ensures
        ({
            let toks = ws_tokens_at(content@, 0);
            let good = spec_good_fp_tokens(toks);
            let bad = spec_bad_fp_tokens(toks);
            &&& r.0@.len() == good.len()
            &&& forall|i: int| 0 <= i < good.len() ==> spec_fp_parsed(good[i], #[trigger] r.0@[i])
            &&& r.1@.len() == bad.len()
            &&& forall|i: int|
                0 <= i < bad.len() ==> match #[trigger] r.1@[i] {
                    Error::UndecodableFingerprint(t) => t@ == bad[i] && strip_dollar(
                        bad[i],
                    ).len() == 40 && !all_hex(strip_dollar(bad[i])),
                    Error::WrongFingerprintLength(t) => t@ == bad[i] && strip_dollar(
                        bad[i],
                    ).len() != 40 && strip_dollar(bad[i]).len() != 43,
                    _ => false,
                }
        }),
{
    let ghost gpred = |t: Seq<char>| spec_fp_ok(t);
    let ghost bpred = |t: Seq<char>| !spec_fp_ok(t);
    let t = text::chars_vec(content);
    let toks = ws_tokens_exec(&t);
    let ghost tviews = toks@.map_values(|x: String| x@);
    let mut fps: Vec<RelayFingerprint> = Vec::new();
    let mut errs: Vec<Error> = Vec::new();
    let n = toks.len();
    let mut i: usize = 0;
    proof {
        reveal(Seq::filter);
        assert(tviews.take(0).filter(gpred) =~= Seq::<Seq<char>>::empty());
        assert(tviews.take(0).filter(bpred) =~= Seq::<Seq<char>>::empty());
    }
    while i < n
        invariant
            i <= n,
            n == toks@.len(),
            tviews == toks@.map_values(|x: String| x@),
            gpred == (|t: Seq<char>| spec_fp_ok(t)),
            bpred == (|t: Seq<char>| !spec_fp_ok(t)),
            fps@.len() == tviews.take(i as int).filter(gpred).len(),
            forall|k: int|
                0 <= k < fps@.len() ==> spec_fp_parsed(
                    tviews.take(i as int).filter(gpred)[k],
                    #[trigger] fps@[k],
                ),
            errs@.len() == tviews.take(i as int).filter(bpred).len(),
            forall|k: int|
                0 <= k < errs@.len() ==> match #[trigger] errs@[k] {
                    Error::UndecodableFingerprint(t) => t@ == tviews.take(i as int).filter(bpred)[k]
                        && strip_dollar(t@).len() == 40 && !all_hex(strip_dollar(t@)),
                    Error::WrongFingerprintLength(t) => t@ == tviews.take(i as int).filter(
                        bpred,
                    )[k] && strip_dollar(t@).len() != 40 && strip_dollar(t@).len() != 43,
                    _ => false,
                },
        decreases n - i,
    {
        proof {
            reveal(Seq::filter);
            assert(tviews.take(i + 1).drop_last() =~= tviews.take(i as int));
            assert(tviews.take(i + 1).last() == tviews[i as int]);
            assert(tviews[i as int] == toks@[i as int]@);
        }
        match RelayFingerprint::from_str(toks[i].as_str()) {
            Ok(fp) => {
                fps.push(fp);
            },
            Err(e) => {
                errs.push(e);
            },
        }
        i = i + 1;
    }
    proof {
        assert(tviews.take(n as int) =~= tviews);
    }
    (fps, errs)
}

} // verus!
