use vstd::prelude::*;

verus! {

/// What the content analyser classifies a payload as.
#[derive(Clone, Copy, Debug, PartialEq, Eq, Structural)]
pub enum InstallerType {
    Msix,
    Msi,
    Appx,
    Exe,
    Zip,
    Inno,
    Nullsoft,
    Wix,
    Burn,
    Pwa,
    Portable,
}

/// The installer types that may stand inside an archive.
#[derive(Clone, Copy, Debug, PartialEq, Eq, Structural)]
pub enum NestedInstallerType {
    Msix,
    Msi,
    Appx,
    Exe,
    Inno,
    Nullsoft,
    Wix,
    Burn,
    Portable,
}

/// The processor architecture that an installer targets.
#[derive(Clone, Copy, Debug, PartialEq, Eq, Structural)]
pub enum Architecture {
    X86,
    X64,
    Arm,
    Arm64,
    Neutral,
}

/// The nested counterpart of an installer type; an archive or a web app has none.
pub open spec fn nested_of(t: InstallerType) -> Option<NestedInstallerType> {
    match t {
        InstallerType::Msix => Some(NestedInstallerType::Msix),
        InstallerType::Msi => Some(NestedInstallerType::Msi),
        InstallerType::Appx => Some(NestedInstallerType::Appx),
        InstallerType::Exe => Some(NestedInstallerType::Exe),
        InstallerType::Zip => None,
        InstallerType::Inno => Some(NestedInstallerType::Inno),
        InstallerType::Nullsoft => Some(NestedInstallerType::Nullsoft),
        InstallerType::Wix => Some(NestedInstallerType::Wix),
        InstallerType::Burn => Some(NestedInstallerType::Burn),
        InstallerType::Pwa => None,
        InstallerType::Portable => Some(NestedInstallerType::Portable),
    }
}

impl InstallerType {
    /// Projects the type onto the types valid inside an archive.
    pub fn to_nested(self) -> (r: Option<NestedInstallerType>)
        ensures
            r == nested_of(self),
    {
        match self {
            InstallerType::Msix => Some(NestedInstallerType::Msix),
            InstallerType::Msi => Some(NestedInstallerType::Msi),
            InstallerType::Appx => Some(NestedInstallerType::Appx),
            InstallerType::Exe => Some(NestedInstallerType::Exe),
            InstallerType::Zip => None,
            InstallerType::Inno => Some(NestedInstallerType::Inno),
            InstallerType::Nullsoft => Some(NestedInstallerType::Nullsoft),
            InstallerType::Wix => Some(NestedInstallerType::Wix),
            InstallerType::Burn => Some(NestedInstallerType::Burn),
            InstallerType::Pwa => None,
            InstallerType::Portable => Some(NestedInstallerType::Portable),
        }
    }
}

/// What the content analyser found in an extracted entry.
#[derive(Clone, Copy, Debug, PartialEq, Eq, Structural)]
pub struct FileAnalysis {
    pub installer_type: InstallerType,
    pub architecture: Option<Architecture>,
}

} // verus!
