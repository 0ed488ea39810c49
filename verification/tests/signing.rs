use gix_tix::sections::{OpenPgp, Ssh, X509};
use gix_tix::signing::{
    Format, KeySource, SignerFailure, confirms_signature, default_program, gpg_signature, is_literal_ssh_key,
    literal_ssh_key, parse_format, remove_cr, signing_key_source, signing_program,
};

#[test]
fn formats_are_named_without_regard_to_case() {
    assert_eq!(parse_format(b"openpgp"), Some(Format::OpenPgp));
    assert_eq!(parse_format(b"OpenPGP"), Some(Format::OpenPgp));
    assert_eq!(parse_format(b"X509"), Some(Format::X509));
    assert_eq!(parse_format(b"sSh"), Some(Format::Ssh));
    assert_eq!(parse_format(b"gpg"), None);
    assert_eq!(parse_format(b""), None);
}

#[test]
fn default_programs_follow_git() {
    assert_eq!(default_program(Format::OpenPgp), "gpg");
    assert_eq!(default_program(Format::X509), "gpgsm");
    assert_eq!(default_program(Format::Ssh), "ssh-keygen");
    assert_eq!(signing_program(Format::OpenPgp, None, Some(b"legacy".to_vec())), b"legacy");
    assert_eq!(signing_program(Format::X509, None, Some(b"legacy".to_vec())), b"gpgsm");
    assert_eq!(signing_program(Format::Ssh, Some(b"mine".to_vec()), None), b"mine");
    assert_eq!(signing_program(Format::Ssh, None, None), b"ssh-keygen");
}

#[test]
fn literal_ssh_keys_are_told_from_key_files() {
    assert!(is_literal_ssh_key(b"ssh-ed25519 AAAA"));
    assert!(is_literal_ssh_key(b"key::ecdsa AAAA"));
    assert!(!is_literal_ssh_key(b"/home/me/.ssh/id"));
    assert_eq!(literal_ssh_key(b"key::ecdsa AAAA"), Some(b"ecdsa AAAA".to_vec()));
    assert_eq!(literal_ssh_key(b"ssh-ed25519 AAAA"), Some(b"ssh-ed25519 AAAA".to_vec()));
    assert_eq!(literal_ssh_key(b"~/.ssh/id"), None);
}

#[test]
fn signatures_lose_their_carriage_returns() {
    assert_eq!(remove_cr(b"a\r\nb\r\r\n".to_vec()), b"a\nb\n");
    assert_eq!(remove_cr(Vec::new()), b"");
}

#[test]
fn gpg_must_confirm_the_signature_on_a_line_of_its_own() {
    assert!(confirms_signature(b"[GNUPG:] SIG_CREATED D 1 8 00 1 X\n"));
    assert!(confirms_signature(b"[GNUPG:] KEY_CONSIDERED x\n[GNUPG:] SIG_CREATED D\n"));
    assert!(!confirms_signature(b"note [GNUPG:] SIG_CREATED D\n"));
    assert!(!confirms_signature(b"[GNUPG:] SIG_CREATED"));
    assert_eq!(
        gpg_signature(true, b"[GNUPG:] SIG_CREATED D\n".to_vec(), b"sig\r\n".to_vec()),
        Ok(b"sig\n".to_vec())
    );
    assert_eq!(
        gpg_signature(true, b"nothing\n".to_vec(), b"sig".to_vec()),
        Err(SignerFailure::MissingSignatureConfirmation)
    );
    assert_eq!(gpg_signature(false, b"boom".to_vec(), Vec::new()), Err(SignerFailure::Failed(b"boom".to_vec())));
}

#[test]
fn signing_keys_come_from_configuration_ssh_defaults_or_the_committer() {
    assert_eq!(signing_key_source(Format::OpenPgp, Some(b"ABCD")), KeySource::Configured);
    assert_eq!(signing_key_source(Format::Ssh, Some(b"ssh-ed25519 AAAA")), KeySource::Configured);
    assert_eq!(signing_key_source(Format::Ssh, Some(b"~/.ssh/id")), KeySource::ConfiguredPath);
    assert_eq!(signing_key_source(Format::Ssh, Some(b"")), KeySource::DefaultSshKey);
    assert_eq!(signing_key_source(Format::Ssh, None), KeySource::DefaultSshKey);
    assert_eq!(signing_key_source(Format::X509, None), KeySource::CommitterIdentity);
}

#[test]
fn gpg_subsections_name_their_keys() {
    assert_eq!(OpenPgp.name(), "openpgp");
    assert_eq!(OpenPgp.keys(), vec!["program"]);
    assert_eq!(X509.name(), "x509");
    assert_eq!(X509.parent(), "gpg");
    assert_eq!(Ssh.name(), "ssh");
    assert_eq!(Ssh.keys(), vec!["program", "defaultKeyCommand", "allowedSignersFile", "revocationFile"]);
}
