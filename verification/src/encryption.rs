//! [`EncryptionLayer`], full-disk encryption as a layer of its own between a volume
//! and its filesystem.
//!
//! Credentials are supplied at resolve time by an injected [`CredentialSource`] and
//! never stored in a locator, so a written address never leaks keys.

use std::sync::Arc;

use vstd::prelude::*;

use crate::error::VfsResult;
use crate::source::DynSource;

verus! {

/// The full-disk-encryption scheme.
#[derive(Debug, Clone, Copy, PartialEq, Eq, Hash, Structural)]
#[non_exhaustive]
pub enum EncryptionScheme {
    Bitlocker,
    Luks1,
    Luks2,
    FileVault,
    ApfsEncrypted,
    /// VeraCrypt / TrueCrypt full-volume encryption.
    VeraCrypt,
}

/// One credential offered to an encryption layer.
#[derive(Debug)]
#[non_exhaustive]
pub enum Credential {
    Password(String),
    /// A numeric recovery key or the contents of a passphrase file.
    RecoveryKey(String),
    /// Raw key material.
    KeyBytes(Vec<u8>),
    /// The path of a key file that the provider will read, as raw bytes.
    KeyFile(Vec<u8>),
}

/// The contents of a credential.
pub enum CredentialModel {
    Password(Seq<char>),
    RecoveryKey(Seq<char>),
    KeyBytes(Seq<u8>),
    KeyFile(Seq<u8>),
}

impl View for Credential {
    type V = CredentialModel;

    open spec fn view(&self) -> CredentialModel {
        match self {
            Credential::Password(s) => CredentialModel::Password(s@),
            Credential::RecoveryKey(s) => CredentialModel::RecoveryKey(s@),
            Credential::KeyBytes(b) => CredentialModel::KeyBytes(b@),
            Credential::KeyFile(b) => CredentialModel::KeyFile(b@),
        }
    }
}

impl Clone for Credential {
    fn clone(&self) -> (r: Self)
        ensures
            r@ == self@,
    {
        match self {
            Credential::Password(s) => Credential::Password(s.clone()),
            Credential::RecoveryKey(s) => Credential::RecoveryKey(s.clone()),
            Credential::KeyBytes(b) => Credential::KeyBytes(
                crate::text::bytes_to_vec(b.as_slice()),
            ),
            Credential::KeyFile(b) => Credential::KeyFile(crate::text::bytes_to_vec(b.as_slice())),
        }
    }
}

/// Supplies credentials at resolve time.
pub trait CredentialSource: Send + Sync {
    /// For a scheme and a target `credentials_for` may answer `offered`.
    open spec fn may_offer(
        &self,
        scheme: EncryptionScheme,
        target: Seq<char>,
        offered: Seq<Credential>,
    ) -> bool {
        true
    }

    /// Credentials for a target (a volume id, label or scheme name); none when there
    /// are none to offer.
    fn credentials_for(&self, scheme: EncryptionScheme, target: &str) -> (r: Vec<Credential>)
        ensures
            self.may_offer(scheme, target@, r@),
    ;
}

/// The source that offers nothing, for a resolve that supplies no keys.
#[derive(Debug, Default, Clone, Copy)]
pub struct NoCredentials;

impl CredentialSource for NoCredentials {
    open spec fn may_offer(
        &self,
        scheme: EncryptionScheme,
        target: Seq<char>,
        offered: Seq<Credential>,
    ) -> bool {
        offered.len() == 0
    }

    fn credentials_for(&self, scheme: EncryptionScheme, target: &str) -> (r: Vec<Credential>) {
        Vec::new()
    }
}

/// The shared handle of a credential source, passed down a resolve.
pub struct DynCredentials {
    pub inner: Arc<Box<dyn CredentialSource>>,
}

/// Whatever is asked for, nothing is offered.
pub open spec fn offers_nothing(creds: DynCredentials) -> bool {
    forall|scheme: EncryptionScheme, target: Seq<char>, offered: Seq<Credential>| #[trigger]
        creds.inner.may_offer(scheme, target, offered) ==> offered.len() == 0
}

impl DynCredentials {
    /// Share a credential source.
    pub fn new(source: Box<dyn CredentialSource>) -> (r: Self)
        ensures
            *r.inner == source,
    {
        let inner = Arc::new(source);
        DynCredentials { inner }
    }

    /// The handle of [`NoCredentials`].
    pub fn none() -> (r: Self)
        ensures
            offers_nothing(r),
    {
        let source = NoCredentials;
        let inner: Arc<Box<dyn CredentialSource>> = Arc::new(Box::new(source));
        let r = DynCredentials { inner };
        assert forall|scheme: EncryptionScheme, target: Seq<char>, offered: Seq<Credential>|
            #[trigger] r.inner.may_offer(scheme, target, offered) implies offered.len() == 0 by {
            assert(source.may_offer(scheme, target, offered));
        }
        r
    }
}

/// An encryption translation over one source: takes credentials and ciphertext,
/// presents a decrypted source.
pub trait EncryptionLayer: Send + Sync {
    /// `open` with `creds` may answer `r`.
    open spec fn may_decrypt(&self, creds: DynCredentials, r: VfsResult<DynSource>) -> bool {
        true
    }

    fn scheme(&self) -> EncryptionScheme;

    /// Present the decrypted volume. Fails when keys are absent or wrong.
    fn open(&self, creds: &DynCredentials) -> (r: VfsResult<DynSource>)
        ensures
            self.may_decrypt(*creds, r),
    ;

    /// Findings raised while parsing the header; none by default.
    fn findings(&self) -> (r: VfsResult<Vec<forensicnomicon::report::Finding>>)
        default_ensures
            r matches Ok(v) && v@.len() == 0,
    {
        Ok(Vec::new())
    }
}

} // verus!
