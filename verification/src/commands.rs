//! What the CLI's commands compute: the operator identity, request URLs,
//! the version report and the messages they print.
//!
//! Talking to the runtime, reading the terminal and the files are the
//! caller's; the functions here take and return text.

use vstd::prelude::*;
use crate::codec::{b64_encoding, b64_encode_bytes};
use crate::text::{decimal, push_decimal, push_str};

verus! {

/// The CLI's version.
pub const TALLY_CLI_VERSION: &'static str = "0.1.0";

/// The revision of the wake-router trait surface the CLI was built with.
pub const STOA_RS_REV: &'static str = "1527a7b";

/// The ed25519 public key of a 32-byte secret seed.
pub uninterp spec fn ed25519_public_key(seed: Seq<u8>) -> Seq<u8>;

/// A fresh 32-byte ed25519 secret seed from the operating system's
/// generator, through `ed25519_dalek::SigningKey::generate` with
/// `rand_core::OsRng`. The bytes are random: nothing is stated of them.
#[verifier::external_body]
fn generate_seed() -> [u8; 32] {
    ed25519_dalek::SigningKey::generate(&mut rand_core::OsRng).to_bytes()
}

/// The public key of a secret seed, through
/// `ed25519_dalek::SigningKey::from_bytes(seed).verifying_key().to_bytes()`;
/// it is a function of the seed alone.
#[verifier::external_body]
fn public_key_of(seed: &[u8; 32]) -> (pk: [u8; 32])
    ensures
        pk@ == ed25519_public_key(seed@),
{
    ed25519_dalek::SigningKey::from_bytes(seed).verifying_key().to_bytes()
}

/// An operator identity: the secret seed as stored (url-safe base64) and
/// the public key as shown (url-safe base64).
#[derive(Debug)]
pub struct OperatorIdentity {
    pub seed_b64: String,
    pub public_b64: String,
}

/// The identity of a given secret seed.
pub fn identity_of_seed(seed: &[u8; 32]) -> (r: OperatorIdentity)
    ensures
        r.seed_b64@ == b64_encoding(seed@),
        r.public_b64@ == b64_encoding(ed25519_public_key(seed@)),
{
    let pk = public_key_of(seed);
    OperatorIdentity { seed_b64: b64_encode_bytes(seed.as_slice()), public_b64: b64_encode_bytes(pk.as_slice()) }
}

/// A fresh operator identity from a random seed.
pub fn new_operator_identity() -> (r: OperatorIdentity)
    ensures
        exists|seed: Seq<u8>| seed.len() == 32 && r.seed_b64@ == b64_encoding(seed) && r.public_b64@ == b64_encoding(ed25519_public_key(seed)),
{
    let seed = generate_seed();
    let r = identity_of_seed(&seed);
    proof {
        assert(seed@.len() == 32);
    }
    r
}

/// The message refusing to replace an existing identity.
pub open spec fn identity_exists_text() -> Seq<char> {
    "operator identity already exists at ~/.tally/identity; use --force to reconfigure"@
}

/// `tally init` replaces an existing identity only when forced.
pub fn init_allowed(identity_exists: bool, force: bool) -> (r: Result<(), String>)
    ensures
        r is Ok <==> (!identity_exists || force),
        r matches Err(m) ==> m@ == identity_exists_text(),
{
    if identity_exists && !force {
        Err(String::from_str("operator identity already exists at ~/.tally/identity; use --force to reconfigure"))
    } else {
        Ok(())
    }
}

/// `tally init` needs a Cloudflare account ID (the trimmed answer).
pub fn account_id_given(account_id: &str) -> (r: Result<(), String>)
    ensures
        r is Ok <==> account_id@.len() > 0,
        r matches Err(m) ==> m@ == "Cloudflare account ID is required"@,
{
    if account_id.unicode_len() == 0 {
        Err(String::from_str("Cloudflare account ID is required"))
    } else {
        Ok(())
    }
}

/// The URL of a team route: `{endpoint}/v1/teams/{team_id}{suffix}`.
pub fn team_url(endpoint: &str, team_id: &str, suffix: &str) -> (r: String)
    ensures
        r@ == endpoint@ + "/v1/teams/"@ + team_id@ + suffix@,
{
    let mut u = endpoint.to_string();
    push_str(&mut u, "/v1/teams/");
    push_str(&mut u, team_id);
    push_str(&mut u, suffix);
    u
}

/// The message of a team command the runtime refused.
pub fn command_failed(command: &str, status: u16, body: &str) -> (r: String)
    ensures
        r@ == command@ + " failed (status "@ + decimal(status as nat) + "): "@ + body@,
{
    let mut m = command.to_string();
    push_str(&mut m, " failed (status ");
    push_decimal(&mut m, status as u64);
    push_str(&mut m, "): ");
    push_str(&mut m, body);
    m
}

/// The lower-case form of an ASCII letter; other characters unchanged.
pub open spec fn lower_char(c: char) -> char {
    if 'A' <= c <= 'Z' {
        ((c as u32 + 32) as u32) as char
    } else {
        c
    }
}

/// A word that confirms: `y` or `yes`, in any case.
pub open spec fn confirmation_word(t: Seq<char>) -> bool {
    let low = t.map_values(|c: char| lower_char(c));
    low == seq!['y'] || low == seq!['y', 'e', 's']
}

/// An answer confirms when, trimmed, it is `y` or `yes` in any case.
pub open spec fn is_confirmation(answer: Seq<char>) -> bool {
    confirmation_word(crate::config::trimmed(answer))
}

fn is_letter(c: char, lower: char) -> (r: bool)
    requires
        'a' <= lower <= 'z',
    ensures
        r == (lower_char(c) == lower),
{
    c == lower || (('A' <= c && c <= 'Z') && (c as u32) + 32 == lower as u32)
}

fn word_confirms(t: &str) -> (r: bool)
    ensures
        r == confirmation_word(t@),
{
    let n = t.unicode_len();
    let ghost low = t@.map_values(|c: char| lower_char(c));
    if n == 1 {
        let r = is_letter(t.get_char(0), 'y');
        proof {
            if r {
                assert(low =~= seq!['y']);
            } else {
                assert(low[0] != 'y');
            }
        }
        r
    } else if n == 3 {
        let a = is_letter(t.get_char(0), 'y');
        let b = is_letter(t.get_char(1), 'e');
        let c = is_letter(t.get_char(2), 's');
        proof {
            if a && b && c {
                assert(low =~= seq!['y', 'e', 's']);
            } else {
                assert(low[0] != 'y' || low[1] != 'e' || low[2] != 's');
            }
        }
        a && b && c
    } else {
        proof {
            assert(low.len() == n);
            assert(seq!['y'].len() == 1);
            assert(seq!['y', 'e', 's'].len() == 3);
            assert(low != seq!['y']);
            assert(low != seq!['y', 'e', 's']);
        }
        false
    }
}

/// Whether the answer to the deletion prompt confirms it.
pub fn confirms(answer: &str) -> (r: bool)
    ensures
        r == is_confirmation(answer@),
{
    let t = crate::config::trim_text(answer);
    word_confirms(t.as_str())
}

/// The runtime line of the version report.
pub open spec fn runtime_line(endpoint: Result<Option<Seq<char>>, Seq<char>>) -> Seq<char> {
    match endpoint {
        Ok(Some(e)) => "runtime: "@ + e + " (configured)"@,
        Ok(None) => "runtime: (not configured — run 'tally init' or 'tally deploy')"@,
        Err(m) => "runtime: (could not read config: "@ + m + ")"@,
    }
}

pub open spec fn endpoint_view(r: Result<Option<String>, String>) -> Result<Option<Seq<char>>, Seq<char>> {
    match r {
        Ok(Some(e)) => Ok(Some(e@)),
        Ok(None) => Ok(None),
        Err(m) => Err(m@),
    }
}

/// `tally version`: the CLI's version, the trait surface's revision and
/// the configured runtime endpoint (or why there is none).
pub fn version_report(endpoint: &Result<Option<String>, String>) -> (lines: Vec<String>)
    ensures
        lines@.len() == 3,
        lines@[0]@ == "tally "@ + TALLY_CLI_VERSION@,
        lines@[1]@ == "stoa-rs: rev "@ + STOA_RS_REV@,
        lines@[2]@ == runtime_line(endpoint_view(*endpoint)),
{
    let mut first = String::from_str("tally ");
    push_str(&mut first, TALLY_CLI_VERSION);
    let mut second = String::from_str("stoa-rs: rev ");
    push_str(&mut second, STOA_RS_REV);
    let third = match endpoint {
        Ok(Some(e)) => {
            let mut l = String::from_str("runtime: ");
            push_str(&mut l, e.as_str());
            push_str(&mut l, " (configured)");
            l
        },
        Ok(None) => String::from_str("runtime: (not configured — run 'tally init' or 'tally deploy')"),
        Err(m) => {
            let mut l = String::from_str("runtime: (could not read config: ");
            push_str(&mut l, m.as_str());
            push_str(&mut l, ")");
            l
        },
    };
    let mut lines: Vec<String> = Vec::new();
    lines.push(first);
    lines.push(second);
    lines.push(third);
    lines
}

} // verus!
