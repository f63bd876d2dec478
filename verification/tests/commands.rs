use tally::commands::{
    account_id_given, command_failed, confirms, identity_of_seed, init_allowed, new_operator_identity, team_url,
    version_report,
};
use base64::Engine;

fn b64_decode_text(s: &str) -> Result<Vec<u8>, base64::DecodeError> {
    base64::engine::general_purpose::URL_SAFE_NO_PAD.decode(s)
}

#[test]
fn version_report_lines() {
    let lines = version_report(&Ok(Some("https://tally.workers.dev".to_string())));
    assert_eq!(lines, vec![
        "tally 0.1.0".to_string(),
        "stoa-rs: rev 1527a7b".to_string(),
        "runtime: https://tally.workers.dev (configured)".to_string(),
    ]);
    let lines = version_report(&Ok(None));
    assert_eq!(lines[2], "runtime: (not configured — run 'tally init' or 'tally deploy')");
    let lines = version_report(&Err("no home".to_string()));
    assert_eq!(lines[2], "runtime: (could not read config: no home)");
}

#[test]
fn delete_confirmation() {
    assert!(confirms("y\n"));
    assert!(confirms("  YES "));
    assert!(confirms("Yes"));
    assert!(!confirms("no"));
    assert!(!confirms(""));
    assert!(!confirms("yess"));
}

#[test]
fn team_command_texts() {
    assert_eq!(team_url("https://t.dev", "T1", "/init"), "https://t.dev/v1/teams/T1/init");
    assert_eq!(team_url("https://t.dev", "T1", ""), "https://t.dev/v1/teams/T1");
    assert_eq!(command_failed("teams init", 404, "nope"), "teams init failed (status 404): nope");
    assert!(init_allowed(false, false).is_ok());
    assert!(init_allowed(true, true).is_ok());
    assert_eq!(
        init_allowed(true, false),
        Err("operator identity already exists at ~/.tally/identity; use --force to reconfigure".to_string())
    );
    assert_eq!(account_id_given(""), Err("Cloudflare account ID is required".to_string()));
    assert!(account_id_given("acct").is_ok());
}

#[test]
fn operator_identity_encoding() {
    let seed = [7u8; 32];
    let id = identity_of_seed(&seed);
    assert_eq!(b64_decode_text(&id.seed_b64).unwrap(), seed.to_vec());
    let pk = b64_decode_text(&id.public_b64).unwrap();
    assert_eq!(pk.len(), 32);
    assert_ne!(pk, seed.to_vec());
    let again = identity_of_seed(&seed);
    assert_eq!(again.public_b64, id.public_b64);
    let fresh = new_operator_identity();
    assert_eq!(b64_decode_text(&fresh.seed_b64).unwrap().len(), 32);
}
