//! [`CryptoLayer`], the encryption of a single volume: what a `crypto:` layer of a
//! locator names and a [`crate::registry::CryptoProbe`] opens.

use vstd::prelude::*;

use crate::encryption::DynCredentials;
use crate::error::VfsResult;
use crate::source::DynSource;

verus! {

/// The scheme of a `crypto:` layer.
#[derive(Debug, Clone, Copy, PartialEq, Eq, Hash, Structural)]
#[non_exhaustive]
pub enum CryptoScheme {
    Bitlocker,
    Luks1,
    Luks2,
    FileVault,
    ApfsEncrypted,
}

/// A volume-encryption translation over one source.
pub trait CryptoLayer: Send + Sync {
    fn scheme(&self) -> CryptoScheme;

    /// Present the decrypted volume. Fails when keys are absent or wrong.
    fn open(&self, creds: &DynCredentials) -> VfsResult<DynSource>;

    /// Findings raised while parsing the header; none by default.
    fn findings(&self) -> (r: VfsResult<Vec<forensicnomicon::report::Finding>>)
        default_ensures
            r matches Ok(v) && v@.len() == 0,
    {
        Ok(Vec::new())
    }
}

} // verus!
