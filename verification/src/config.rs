//! The CLI's local state under `~/.tally/`: where its files live, how
//! their contents are read, and the bearers built from them.
//!
//! ```text
//! ~/.tally/
//! ├── identity            # ed25519 secret seed, url-safe base64
//! ├── runtime-endpoint    # deployed runtime base URL
//! └── cloudflare-account  # Cloudflare account ID
//! ```
//!
//! Reading and writing the files is the caller's; the functions here
//! take and return their text.

use vstd::prelude::*;
use crate::text::push_str;

verus! {

/// Name of the configuration directory under the home directory.
pub const CONFIG_DIR: &'static str = ".tally";
/// File holding the operator identity.
pub const IDENTITY_FILE: &'static str = "identity";
/// File holding the runtime endpoint.
pub const RUNTIME_ENDPOINT_FILE: &'static str = "runtime-endpoint";
/// File holding the Cloudflare account ID.
pub const CLOUDFLARE_ACCOUNT_FILE: &'static str = "cloudflare-account";

/// `name` appended to the path `base` as one more component.
pub open spec fn path_join(base: Seq<char>, name: Seq<char>) -> Seq<char> {
    if base.len() == 0 {
        name
    } else if base.last() == '/' {
        base + name
    } else {
        base + seq!['/'] + name
    }
}

/// Appends a relative component to a path, as `Path::join` does.
pub fn join_path(base: &str, name: &str) -> (r: String)
    ensures
        r@ == path_join(base@, name@),
{
    let n = base.unicode_len();
    let mut r = base.to_string();
    proof {
        reveal_strlit("/");
    }
    if n > 0 && base.get_char(n - 1) != '/' {
        push_str(&mut r, "/");
    }
    push_str(&mut r, name);
    r
}

/// The home directory through `dirs::home_dir`, as text; `None` when it
/// cannot be determined or is not valid UTF-8. It depends on the
/// environment, so nothing is stated of the value.
#[verifier::external_body]
fn home_dir() -> Option<String> {
    dirs::home_dir().and_then(|p| p.into_os_string().into_string().ok())
}

/// The message when the home directory cannot be determined.
pub open spec fn no_home_text() -> Seq<char> {
    "could not determine home directory"@
}

/// `~/.tally` under the given home directory, or the error when there is
/// none.
pub fn config_dir_in(home: &Option<String>) -> (r: Result<String, String>)
    ensures
        match home {
            Some(h) => r matches Ok(d) && d@ == path_join(h@, CONFIG_DIR@),
            None => r matches Err(e) && e@ == no_home_text(),
        },
{
    match home {
        Some(h) => Ok(join_path(h.as_str(), CONFIG_DIR)),
        None => Err(String::from_str("could not determine home directory")),
    }
}

/// `~/.tally/`.
pub fn config_dir() -> (r: Result<String, String>)
    ensures
        r matches Ok(d) ==> exists|h: Seq<char>| d@ == path_join(h, CONFIG_DIR@),
        r matches Err(e) ==> e@ == no_home_text(),
{
    config_dir_in(&home_dir())
}

/// `~/.tally/<file>` under the given home directory, or the error when
/// there is none.
pub fn config_file_in(home: &Option<String>, file: &str) -> (r: Result<String, String>)
    ensures
        match home {
            Some(h) => r matches Ok(p) && p@ == path_join(path_join(h@, CONFIG_DIR@), file@),
            None => r matches Err(e) && e@ == no_home_text(),
        },
{
    match config_dir_in(home) {
        Ok(d) => Ok(join_path(d.as_str(), file)),
        Err(e) => Err(e),
    }
}

/// `~/.tally/identity`.
pub fn identity_path() -> (r: Result<String, String>)
    ensures
        r matches Ok(p) ==> exists|h: Seq<char>| p@ == path_join(path_join(h, CONFIG_DIR@), IDENTITY_FILE@),
        r matches Err(e) ==> e@ == no_home_text(),
{
    config_file_in(&home_dir(), IDENTITY_FILE)
}

/// `~/.tally/runtime-endpoint`.
pub fn runtime_endpoint_path() -> (r: Result<String, String>)
    ensures
        r matches Ok(p) ==> exists|h: Seq<char>| p@ == path_join(path_join(h, CONFIG_DIR@), RUNTIME_ENDPOINT_FILE@),
        r matches Err(e) ==> e@ == no_home_text(),
{
    config_file_in(&home_dir(), RUNTIME_ENDPOINT_FILE)
}

/// `~/.tally/cloudflare-account`.
pub fn cloudflare_account_path() -> (r: Result<String, String>)
    ensures
        r matches Ok(p) ==> exists|h: Seq<char>| p@ == path_join(path_join(h, CONFIG_DIR@), CLOUDFLARE_ACCOUNT_FILE@),
        r matches Err(e) ==> e@ == no_home_text(),
{
    config_file_in(&home_dir(), CLOUDFLARE_ACCOUNT_FILE)
}

/// A character with the Unicode `White_Space` property (what
/// `char::is_whitespace` tests).
pub open spec fn is_space(c: char) -> bool {
    ||| '\t' <= c <= '\r'
    ||| c == ' '
    ||| c == '\u{85}'
    ||| c == '\u{a0}'
    ||| c == '\u{1680}'
    ||| '\u{2000}' <= c <= '\u{200a}'
    ||| c == '\u{2028}'
    ||| c == '\u{2029}'
    ||| c == '\u{202f}'
    ||| c == '\u{205f}'
    ||| c == '\u{3000}'
}

fn space(c: char) -> (r: bool)
    ensures
        r == is_space(c),
{
    ('\t' <= c && c <= '\r') || c == ' ' || c == '\u{85}' || c == '\u{a0}' || c == '\u{1680}' || ('\u{2000}' <= c && c
        <= '\u{200a}') || c == '\u{2028}' || c == '\u{2029}' || c == '\u{202f}' || c == '\u{205f}' || c == '\u{3000}'
}

/// `s` without leading and trailing white space (what `str::trim` gives):
/// the characters from the first to the last non-space one.
pub open spec fn trimmed(s: Seq<char>) -> Seq<char> {
    if forall|i: int| 0 <= i < s.len() ==> is_space(#[trigger] s[i]) {
        Seq::empty()
    } else {
        let a = choose|a: int| 0 <= a < s.len() && !is_space(s[a]) && forall|i: int| 0 <= i < a ==> is_space(#[trigger] s[i]);
        let b = choose|b: int| 0 <= b < s.len() && !is_space(s[b]) && forall|i: int| b < i < s.len() ==> is_space(#[trigger] s[i]);
        s.subrange(a, b + 1)
    }
}

/// Trims white space at both ends.
pub fn trim_text(s: &str) -> (r: String)
    ensures
        r@ == trimmed(s@),
{
    let n = s.unicode_len();
    let mut a: usize = 0;
    while a < n && space(s.get_char(a))
        invariant
            a <= n,
            n == s@.len(),
            forall|i: int| 0 <= i < a ==> is_space(#[trigger] s@[i]),
        decreases n - a,
    {
        a = a + 1;
    }
    if a == n {
        return String::new();
    }
    let mut b: usize = n - 1;
    while b > a && space(s.get_char(b))
        invariant
            a <= b < n,
            n == s@.len(),
            !is_space(s@[a as int]),
            forall|i: int| b < i < n ==> is_space(#[trigger] s@[i]),
        decreases b,
    {
        b = b - 1;
    }
    proof {
        assert(!is_space(s@[b as int]));
        let ga = choose|x: int| 0 <= x < s@.len() && !is_space(s@[x]) && forall|i: int| 0 <= i < x ==> is_space(#[trigger] s@[i]);
        let gb = choose|y: int| 0 <= y < s@.len() && !is_space(s@[y]) && forall|i: int| y < i < s@.len() ==> is_space(#[trigger] s@[i]);
        assert(!(forall|i: int| 0 <= i < s@.len() ==> is_space(#[trigger] s@[i])));
        if ga < a {
            assert(is_space(s@[ga]));
        }
        if ga > a {
            assert(is_space(s@[a as int]));
        }
        if gb < b {
            assert(is_space(s@[b as int]));
        }
        if gb > b {
            assert(is_space(s@[gb]));
        }
    }
    s.substring_char(a, b + 1).to_string()
}

/// The value a configuration file holds: its trimmed text, or nothing
/// when that is empty.
pub fn config_value(text: &str) -> (r: Option<String>)
    ensures
        match r {
            Some(v) => v@ == trimmed(text@) && v@.len() > 0,
            None => trimmed(text@).len() == 0,
        },
{
    let t = trim_text(text);
    if t.as_str().unicode_len() == 0 {
        None
    } else {
        Some(t)
    }
}

/// The message for an empty identity file at `path`.
pub open spec fn empty_identity_text(path: Seq<char>) -> Seq<char> {
    "identity file at "@ + path + " is empty; run 'tally init' to initialize"@
}

/// The operator identity held by the identity file at `path` with
/// contents `text`: its trimmed text, which must not be empty.
pub fn identity_value(path: &str, text: &str) -> (r: Result<String, String>)
    ensures
        match r {
            Ok(v) => v@ == trimmed(text@) && v@.len() > 0,
            Err(e) => trimmed(text@).len() == 0 && e@ == empty_identity_text(path@),
        },
{
    match config_value(text) {
        Some(v) => Ok(v),
        None => {
            let mut e = String::from_str("identity file at ");
            push_str(&mut e, path);
            push_str(&mut e, " is empty; run 'tally init' to initialize");
            Err(e)
        },
    }
}

/// The message when no runtime endpoint is configured.
pub open spec fn no_endpoint_text() -> Seq<char> {
    "no Tally runtime endpoint configured; run 'tally deploy' to deploy the Worker and persist the endpoint"@
}

/// The runtime endpoint, from the result of reading its configuration
/// file: a missing or empty file is an error saying how to configure it.
pub fn runtime_endpoint(read: Result<Option<String>, String>) -> (r: Result<String, String>)
    ensures
        match read {
            Ok(Some(e)) => r matches Ok(x) && x@ == e@,
            Ok(None) => r matches Err(m) && m@ == no_endpoint_text(),
            Err(m0) => r matches Err(m) && m@ == m0@,
        },
{
    match read {
        Ok(Some(e)) => Ok(e),
        Ok(None) => Err(String::from_str(
            "no Tally runtime endpoint configured; run 'tally deploy' to deploy the Worker and persist the endpoint",
        )),
        Err(m) => Err(m),
    }
}

/// The message when the operator identity cannot be read.
pub open spec fn no_operator_text() -> Seq<char> {
    "could not read operator identity; run 'tally init' to initialize"@
}

/// The operator-level bearer: the operator identity, from the result of
/// reading it; a failed read says how to create one.
pub fn operator_bearer(read: Result<String, String>) -> (r: Result<String, String>)
    ensures
        match read {
            Ok(id) => r matches Ok(x) && x@ == id@,
            Err(_) => r matches Err(m) && m@ == no_operator_text(),
        },
{
    match read {
        Ok(id) => Ok(id),
        Err(_) => Err(String::from_str("could not read operator identity; run 'tally init' to initialize")),
    }
}

/// The agent-level bearer: the agent's identity itself, which is also its
/// URL path identity.
pub fn agent_bearer(identity_b64: &str) -> (r: String)
    ensures
        r@ == identity_b64@,
{
    identity_b64.to_string()
}

} // verus!
