//! Deterministic naming of the download artifact for a resolved version.

use vstd::prelude::*;

verus! {

/// The recognized target platforms of the artifact naming template.
#[derive(Clone, Copy, Debug, PartialEq, Eq, Structural)]
pub enum Platform {
    WinX64,
    LinuxX64,
    DarwinArm64,
}

/// The recognized archive formats of the artifact naming template.
#[derive(Clone, Copy, Debug, PartialEq, Eq, Structural)]
pub enum ArchiveKind {
    Zip,
    TarGz,
}

impl Platform {
    /// The tag that names this platform inside an artifact file name.
    pub open spec fn spec_tag(self) -> Seq<char> {
        match self {
            Platform::WinX64 => "win-x64"@,
            Platform::LinuxX64 => "linux-x64"@,
            Platform::DarwinArm64 => "darwin-arm64"@,
        }
    }

    /// The tag that names this platform inside an artifact file name.
    pub fn tag(&self) -> (r: &'static str)
        ensures
            r@ == self.spec_tag(),
    {
        match self {
            Platform::WinX64 => "win-x64",
            Platform::LinuxX64 => "linux-x64",
            Platform::DarwinArm64 => "darwin-arm64",
        }
    }
}

impl ArchiveKind {
    /// The file extension of this archive format.
    pub open spec fn spec_extension(self) -> Seq<char> {
        match self {
            ArchiveKind::Zip => "zip"@,
            ArchiveKind::TarGz => "tar.gz"@,
        }
    }

    /// The file extension of this archive format.
    pub fn extension(&self) -> (r: &'static str)
        ensures
            r@ == self.spec_extension(),
    {
        match self {
            ArchiveKind::Zip => "zip",
            ArchiveKind::TarGz => "tar.gz",
        }
    }
}

/// The download URL of the artifact for `version`, for one platform and one
/// archive format: `<base><version>/node-<version>-<platform-tag>.<extension>`.
pub open spec fn spec_download_url(
    base: Seq<char>,
    version: Seq<char>,
    platform: Platform,
    archive: ArchiveKind,
) -> Seq<char> {
    base + version + "/node-"@ + version + "-"@ + platform.spec_tag() + "."@
        + archive.spec_extension()
}

/// Builds the download URL of the artifact for `version` under `base_url`,
/// for the given platform and archive format. Pure string construction.
pub fn create_download_url(
    base_url: &str,
    version: &str,
    platform: Platform,
    archive: ArchiveKind,
) -> (r: String)
    ensures
        r@ == spec_download_url(base_url@, version@, platform, archive),
{
    let mut url = base_url.to_owned();
    url.append(version);
    url.append("/node-");
    url.append(version);
    url.append("-");
    url.append(platform.tag());
    url.append(".");
    url.append(archive.extension());
    proof {
        assert(url@ =~= spec_download_url(base_url@, version@, platform, archive));
    }
    url
}

/// Builds the download URL of the Windows x64 zip artifact for `version`:
/// `<base><version>/node-<version>-win-x64.zip`.
pub fn create_node_windows_download_url(base_node_url: &str, version: &str) -> (r: String)
    ensures
        r@ == base_node_url@ + version@ + "/node-"@ + version@ + "-win-x64.zip"@,
{
    let mut download_url = base_node_url.to_owned();
    download_url.append(version);
    download_url.append("/node-");
    download_url.append(version);
    download_url.append("-win-x64.zip");
    proof {
        assert(download_url@ =~= base_node_url@ + version@ + "/node-"@ + version@
            + "-win-x64.zip"@);
    }
    download_url
}

} // verus!
