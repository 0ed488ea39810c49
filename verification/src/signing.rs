//! The decisions of Git-compatible commit signing: the signature format, the program and key that
//! sign, and what a signing program's output must show.
use vstd::prelude::*;
use vstd::string::StringSliceAdditionalSpecFns;

use crate::bytes::{
    eq_at, eq_ignore_ascii_case, eq_ignore_case, has_prefix, push_all, starts_with, ascii_lower,
};

verus! {

/// The format of the signature to create.
#[derive(Clone, Copy, Debug, PartialEq, Eq, Structural)]
pub enum Format {
    /// An OpenPGP signature made with `gpg` by default.
    OpenPgp,
    /// An X.509 signature made with `gpgsm` by default.
    X509,
    /// An SSH signature made with `ssh-keygen` by default.
    Ssh,
}

/// The format a `gpg.format` value names, compared without regard to ASCII case.
pub open spec fn format_named(value: Seq<u8>) -> Option<Format> {
    if eq_ignore_case(value, "openpgp".spec_bytes()) {
        Some(Format::OpenPgp)
    } else if eq_ignore_case(value, "x509".spec_bytes()) {
        Some(Format::X509)
    } else if eq_ignore_case(value, "ssh".spec_bytes()) {
        Some(Format::Ssh)
    } else {
        None
    }
}

/// The format a `gpg.format` value names, or `None` for an unsupported value.
pub fn parse_format(value: &[u8]) -> (r: Option<Format>)
    ensures
        r == format_named(value@),
{
    if eq_ignore_ascii_case(value, "openpgp".as_bytes()) {
        Some(Format::OpenPgp)
    } else if eq_ignore_ascii_case(value, "x509".as_bytes()) {
        Some(Format::X509)
    } else if eq_ignore_ascii_case(value, "ssh".as_bytes()) {
        Some(Format::Ssh)
    } else {
        None
    }
}

/// Values that differ only in ASCII case name the same format.
pub proof fn lemma_format_ignores_case(a: Seq<u8>, b: Seq<u8>)
    requires
        eq_ignore_case(a, b),
    ensures
        format_named(a) == format_named(b),
{
    let names = seq!["openpgp".spec_bytes(), "x509".spec_bytes(), "ssh".spec_bytes()];
    assert forall|k: int| 0 <= k < 3 implies eq_ignore_case(a, #[trigger] names[k]) == eq_ignore_case(b, names[k]) by {
        let n = names[k];
        if eq_ignore_case(a, n) {
            assert forall|i: int| 0 <= i < b.len() implies ascii_lower(#[trigger] b[i]) == ascii_lower(n[i]) by {
                assert(ascii_lower(a[i]) == ascii_lower(b[i]));
            }
        }
        if eq_ignore_case(b, n) {
            assert forall|i: int| 0 <= i < a.len() implies ascii_lower(#[trigger] a[i]) == ascii_lower(n[i]) by {
                assert(ascii_lower(a[i]) == ascii_lower(b[i]));
            }
        }
    }
    assert(names[0] == "openpgp".spec_bytes());
    assert(names[1] == "x509".spec_bytes());
    assert(names[2] == "ssh".spec_bytes());
}

/// The program that signs in `format` where none is configured.
pub open spec fn default_program_name(format: Format) -> Seq<char> {
    match format {
        Format::OpenPgp => "gpg"@,
        Format::X509 => "gpgsm"@,
        Format::Ssh => "ssh-keygen"@,
    }
}

/// The program that signs in `format` where none is configured.
pub fn default_program(format: Format) -> (r: &'static str)
    ensures
        r@ == default_program_name(format),
{
    match format {
        Format::OpenPgp => "gpg",
        Format::X509 => "gpgsm",
        Format::Ssh => "ssh-keygen",
    }
}

/// The name of the default program of `format`, as bytes.
pub open spec fn default_program_bytes(format: Format) -> Seq<u8> {
    match format {
        Format::OpenPgp => "gpg".spec_bytes(),
        Format::X509 => "gpgsm".spec_bytes(),
        Format::Ssh => "ssh-keygen".spec_bytes(),
    }
}

/// The program that signs in `format`: the one configured for the format, for OpenPGP else the
/// legacy `gpg.program`, else the default.
pub fn signing_program(format: Format, configured: Option<Vec<u8>>, legacy: Option<Vec<u8>>) -> (r: Vec<u8>)
    ensures
        r@ == match (format, configured, legacy) {
            (_, Some(p), _) => p@,
            (Format::OpenPgp, None, Some(p)) => p@,
            _ => default_program_bytes(format),
        },
{
    match configured {
        Some(p) => p,
        None => {
            let fallback = match format {
                Format::OpenPgp => legacy,
                _ => None,
            };
            match fallback {
                Some(p) => p,
                None => {
                    let name = default_program(format);
                    let mut out: Vec<u8> = Vec::new();
                    let bytes = name.as_bytes();
                    push_all(&mut out, bytes);
                    assert(out@ =~= default_program_bytes(format));
                    out
                },
            }
        },
    }
}

/// An SSH signing key given literally rather than as the path of a key file.
pub open spec fn literal_ssh(key: Seq<u8>) -> bool {
    has_prefix(key, "ssh-".spec_bytes()) || has_prefix(key, "key::".spec_bytes())
}

/// Whether an SSH signing key is given literally rather than as the path of a key file.
pub fn is_literal_ssh_key(key: &[u8]) -> (r: bool)
    ensures
        r == literal_ssh(key@),
{
    starts_with(key, "ssh-".as_bytes()) || starts_with(key, "key::".as_bytes())
}

/// The key that a literal SSH signing key names: the text after `key::`, or the whole of a key that
/// starts with `ssh-`; `None` for the path of a key file.
pub open spec fn literal_key_text(key: Seq<u8>) -> Option<Seq<u8>> {
    if has_prefix(key, "key::".spec_bytes()) {
        Some(key.subrange("key::".spec_bytes().len() as int, key.len() as int))
    } else if has_prefix(key, "ssh-".spec_bytes()) {
        Some(key)
    } else {
        None
    }
}

/// The key that a literal SSH signing key names, which is written to a temporary file for
/// `ssh-keygen`; `None` where the signing key is the path of a key file.
pub fn literal_ssh_key(key: &[u8]) -> (r: Option<Vec<u8>>)
    ensures
        match r {
            Some(k) => literal_key_text(key@) == Some(k@),
            None => literal_key_text(key@).is_none(),
        },
{
    let prefix = "key::".as_bytes();
    if starts_with(key, prefix) {
        let mut out: Vec<u8> = Vec::new();
        let start = prefix.len();
        let mut i: usize = start;
        while i < key.len()
            invariant
                start == "key::".spec_bytes().len(),
                start <= i <= key@.len(),
                out@ == key@.subrange(start as int, i as int),
            decreases key@.len() - i,
        {
            out.push(key[i]);
            i += 1;
            assert(out@ =~= key@.subrange(start as int, i as int));
        }
        Some(out)
    } else if starts_with(key, "ssh-".as_bytes()) {
        let mut out: Vec<u8> = Vec::new();
        push_all(&mut out, key);
        assert(out@ =~= key@);
        Some(out)
    } else {
        None
    }
}

/// The bytes with every carriage return removed.
pub open spec fn without_cr(input: Seq<u8>) -> Seq<u8> {
    input.filter(|b: u8| b != 13u8)
}

/// A signature without carriage returns holds none, and keeps every other byte in order.
pub proof fn lemma_without_cr_holds_none(input: Seq<u8>)
    ensures
        forall|i: int| 0 <= i < without_cr(input).len() ==> without_cr(input)[i] != 13u8,
        forall|i: int| 0 <= i < input.len() && input[i] != 13u8 ==> without_cr(input).contains(input[i]),
        without_cr(input).len() <= input.len(),
{
    let keep = |b: u8| b != 13u8;
    assert forall|i: int| 0 <= i < without_cr(input).len() implies without_cr(input)[i] != 13u8 by {
        input.lemma_filter_pred(keep, i);
    }
    assert forall|i: int| 0 <= i < input.len() && input[i] != 13u8 implies without_cr(input).contains(input[i]) by {
        input.lemma_filter_contains(keep, i);
    }
    input.lemma_filter_len(keep);
}

/// Removes every carriage return from a signature, as Git does.
pub fn remove_cr(input: Vec<u8>) -> (r: Vec<u8>)
    ensures
        r@ == without_cr(input@),
{
    let mut out: Vec<u8> = Vec::new();
    let mut i: usize = 0;
    while i < input.len()
        invariant
            i <= input@.len(),
            out@ == input@.take(i as int).filter(|b: u8| b != 13u8),
        decreases input@.len() - i,
    {
        proof {
            assert(input@.take(i + 1).drop_last() == input@.take(i as int));
            reveal(Seq::filter);
        }
        if input[i] != 13u8 {
            out.push(input[i]);
        }
        i += 1;
    }
    assert(input@.take(input@.len() as int) == input@);
    out
}

/// The status line with which `gpg` and `gpgsm` confirm that they created a signature.
pub open spec fn sig_created() -> Seq<u8> {
    "[GNUPG:] SIG_CREATED ".spec_bytes()
}

/// Some line of `status` starts with the signature confirmation.
pub open spec fn confirms(status: Seq<u8>) -> bool {
    exists|at: int|
        0 <= at <= status.len() && (at == 0 || status[at - 1] == 10u8) && #[trigger] has_prefix(
            status.subrange(at, status.len() as int),
            sig_created(),
        )
}

/// Whether the status output of an OpenPGP or X.509 signer confirms that a signature was created.
pub fn confirms_signature(status: &[u8]) -> (r: bool)
    ensures
        r == confirms(status@),
{
    let marker = "[GNUPG:] SIG_CREATED ".as_bytes();
    let mut at: usize = 0;
    let mut line_start = true;
    while at < status.len()
        invariant
            at <= status@.len(),
            marker@ == sig_created(),
            line_start == (at == 0 || status@[at - 1] == 10u8),
            forall|k: int|
                0 <= k < at && (k == 0 || status@[k - 1] == 10u8) ==> !#[trigger] has_prefix(
                    status@.subrange(k, status@.len() as int),
                    sig_created(),
                ),
        decreases status@.len() - at,
    {
        if line_start && marker.len() <= status.len() - at && eq_at(status, at, marker) {
            proof {
                assert(status@.subrange(at as int, status@.len() as int).subrange(0, marker@.len() as int)
                    =~= status@.subrange(at as int, at + marker@.len()));
                assert(has_prefix(status@.subrange(at as int, status@.len() as int), sig_created()));
            }
            return true;
        }
        proof {
            if line_start && !(at + marker@.len() <= status@.len()) {
                assert(!has_prefix(status@.subrange(at as int, status@.len() as int), sig_created()));
            }
            if line_start && at + marker@.len() <= status@.len() {
                assert(status@.subrange(at as int, status@.len() as int).subrange(0, marker@.len() as int)
                    =~= status@.subrange(at as int, at + marker@.len()));
            }
        }
        line_start = status[at] == 10u8;
        at += 1;
    }
    proof {
        assert(!has_prefix(status@.subrange(at as int, status@.len() as int), sig_created())) by {
            reveal_strlit("[GNUPG:] SIG_CREATED ");
            vstd::string::is_ascii_spec_bytes("[GNUPG:] SIG_CREATED ");
        }
    }
    false
}

/// Why a signer's output was refused.
#[derive(Debug, PartialEq, Eq)]
pub enum SignerFailure {
    /// The signing program failed; its error output.
    Failed(Vec<u8>),
    /// An OpenPGP or X.509 signer did not confirm the signature.
    MissingSignatureConfirmation,
}

/// The signature that an OpenPGP or X.509 signer produced: its output without carriage returns,
/// provided the program succeeded and confirmed the signature on its status output.
pub fn gpg_signature(success: bool, status: Vec<u8>, output: Vec<u8>) -> (r: Result<Vec<u8>, SignerFailure>)
    ensures
        !success ==> r == Err::<Vec<u8>, SignerFailure>(SignerFailure::Failed(status)),
        success && !confirms(status@) ==> r == Err::<Vec<u8>, SignerFailure>(
            SignerFailure::MissingSignatureConfirmation,
        ),
        success && confirms(status@) ==> (r matches Ok(s) && s@ == without_cr(output@)),
{
    if !success {
        return Err(SignerFailure::Failed(status));
    }
    if !confirms_signature(status.as_slice()) {
        return Err(SignerFailure::MissingSignatureConfirmation);
    }
    Ok(remove_cr(output))
}

/// Where the key that signs comes from.
#[derive(Clone, Copy, Debug, PartialEq, Eq, Structural)]
pub enum KeySource {
    /// `user.signingKey` as configured.
    Configured,
    /// `user.signingKey` as the path of an SSH key file, interpolated like other configured paths.
    ConfiguredPath,
    /// The first line of what `gpg.ssh.defaultKeyCommand` prints.
    DefaultSshKey,
    /// The committer's identity, `name <email>`.
    CommitterIdentity,
}

/// Where the signing key comes from, given the format and `user.signingKey`.
pub open spec fn key_source_for(format: Format, configured: Option<Seq<u8>>) -> KeySource {
    match configured {
        Some(k) if k.len() > 0 && format == Format::Ssh && !literal_ssh(k) => KeySource::ConfiguredPath,
        Some(k) if k.len() > 0 => KeySource::Configured,
        _ => if format == Format::Ssh {
            KeySource::DefaultSshKey
        } else {
            KeySource::CommitterIdentity
        },
    }
}

/// Where the signing key comes from: a non-empty `user.signingKey`, read as a path where an SSH key is
/// not given literally; else the SSH default key command, or for the other formats the committer.
pub fn signing_key_source(format: Format, configured: Option<&[u8]>) -> (r: KeySource)
    ensures
        r == key_source_for(
            format,
            match configured {
                Some(k) => Some(k@),
                None => None,
            },
        ),
{
    let ssh = match format {
        Format::Ssh => true,
        _ => false,
    };
    match configured {
        Some(k) => {
            if k.len() > 0 && ssh && !is_literal_ssh_key(k) {
                KeySource::ConfiguredPath
            } else if k.len() > 0 {
                KeySource::Configured
            } else if ssh {
                KeySource::DefaultSshKey
            } else {
                KeySource::CommitterIdentity
            }
        },
        None => {
            if ssh {
                KeySource::DefaultSshKey
            } else {
                KeySource::CommitterIdentity
            }
        },
    }
}

/// The SSH default key and a key file path serve SSH signatures alone: for any other format the key is
/// the configured `user.signingKey` when it is non-empty, else the committer's identity. For SSH with no
/// non-empty `user.signingKey` the default key command is asked; a non-empty one is always used, as
/// given or as a path.
pub proof fn lemma_ssh_key_sources_serve_ssh_alone(format: Format, configured: Option<Seq<u8>>)
    ensures
        key_source_for(format, configured) == KeySource::DefaultSshKey ==> format == Format::Ssh,
        key_source_for(format, configured) == KeySource::ConfiguredPath ==> format == Format::Ssh,
        format != Format::Ssh && (configured is None || configured->0.len() == 0)
            ==> key_source_for(format, configured) == KeySource::CommitterIdentity,
        format == Format::Ssh && (configured is None || configured->0.len() == 0)
            ==> key_source_for(format, configured) == KeySource::DefaultSshKey,
        format != Format::Ssh && configured is Some && configured->0.len() > 0
            ==> key_source_for(format, configured) == KeySource::Configured,
        configured is Some && configured->0.len() > 0 ==> (key_source_for(format, configured)
            == KeySource::Configured || key_source_for(format, configured) == KeySource::ConfiguredPath),
{
}

} // verus!
