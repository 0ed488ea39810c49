//! The subsections of the `gpg` configuration section and the keys each of them holds.
use vstd::prelude::*;

verus! {

/// The name of the section that holds the signing subsections.
pub open spec fn gpg_section() -> Seq<char> {
    "gpg"@
}

/// The `gpg.openpgp` subsection.
#[derive(Clone, Copy, Debug, Default, PartialEq, Eq, Structural)]
pub struct OpenPgp;

impl OpenPgp {
    /// The subsection's name.
    pub fn name(&self) -> (r: &'static str)
        ensures
            r@ == "openpgp"@,
    {
        "openpgp"
    }

    /// The keys of the subsection: `gpg.openpgp.program`.
    pub fn keys(&self) -> (r: Vec<&'static str>)
        ensures
            r@.len() == 1,
            r@[0]@ == "program"@,
    {
        vec!["program"]
    }

    /// The section this subsection belongs to.
    pub fn parent(&self) -> (r: &'static str)
        ensures
            r@ == gpg_section(),
    {
        "gpg"
    }
}

/// The `gpg.x509` subsection.
#[derive(Clone, Copy, Debug, Default, PartialEq, Eq, Structural)]
pub struct X509;

impl X509 {
    /// The subsection's name.
    pub fn name(&self) -> (r: &'static str)
        ensures
            r@ == "x509"@,
    {
        "x509"
    }

    /// The keys of the subsection: `gpg.x509.program`.
    pub fn keys(&self) -> (r: Vec<&'static str>)
        ensures
            r@.len() == 1,
            r@[0]@ == "program"@,
    {
        vec!["program"]
    }

    /// The section this subsection belongs to.
    pub fn parent(&self) -> (r: &'static str)
        ensures
            r@ == gpg_section(),
    {
        "gpg"
    }
}

/// The `gpg.ssh` subsection.
#[derive(Clone, Copy, Debug, Default, PartialEq, Eq, Structural)]
pub struct Ssh;

impl Ssh {
    /// The subsection's name.
    pub fn name(&self) -> (r: &'static str)
        ensures
            r@ == "ssh"@,
    {
        "ssh"
    }

    /// The keys of the subsection: the signing program, the command that prints the default key, the
    /// file of allowed signers and the revocation file.
    pub fn keys(&self) -> (r: Vec<&'static str>)
        ensures
            r@.len() == 4,
            r@[0]@ == "program"@,
            r@[1]@ == "defaultKeyCommand"@,
            r@[2]@ == "allowedSignersFile"@,
            r@[3]@ == "revocationFile"@,
    {
        vec!["program", "defaultKeyCommand", "allowedSignersFile", "revocationFile"]
    }

    /// The section this subsection belongs to.
    pub fn parent(&self) -> (r: &'static str)
        ensures
            r@ == gpg_section(),
    {
        "gpg"
    }
}

} // verus!
