//! Bounded local operating-system metadata.

use vstd::prelude::*;

use crate::text::same_text;

verus! {

/// A supported operating-system family.
///
/// Platform is descriptive metadata only. It is not a device identifier,
/// uniqueness mechanism, trust anchor, or cryptographic identity.
#[derive(Clone, Copy, Debug, PartialEq, Eq, Hash, Structural)]
pub enum Platform {
    /// Apple macOS.
    MacOs,
    /// Microsoft Windows.
    Windows,
    /// Linux.
    Linux,
}

impl Platform {
    /// The stable internal textual representation.
    pub open spec fn text(self) -> Seq<char> {
        match self {
            Platform::MacOs => "macos"@,
            Platform::Windows => "windows"@,
            Platform::Linux => "linux"@,
        }
    }

    /// Returns the stable internal textual representation.
    #[must_use]
    pub fn as_str(self) -> (s: &'static str)
        ensures
            s@ == self.text(),
    {
        match self {
            Platform::MacOs => "macos",
            Platform::Windows => "windows",
            Platform::Linux => "linux",
        }
    }

    /// Maps the name of a compilation target's operating system to its family.
    pub fn from_target_os(target_os: &str) -> (r: Result<Self, UnsupportedPlatformError>)
        ensures
            match r {
                Ok(platform) => platform.text() == target_os@,
                Err(error) => error@ == target_os@ && forall|platform: Platform|
                    platform.text() != target_os@,
            },
    {
        if same_text(target_os, "macos") {
            Ok(Platform::MacOs)
        } else if same_text(target_os, "windows") {
            Ok(Platform::Windows)
        } else if same_text(target_os, "linux") {
            Ok(Platform::Linux)
        } else {
            Err(UnsupportedPlatformError { target_os: target_os.to_owned() })
        }
    }
}

/// Different platforms have different textual representations.
pub proof fn platform_text_is_injective(a: Platform, b: Platform)
    requires
        a.text() == b.text(),
    ensures
        a == b,
{
    reveal_strlit("macos");
    reveal_strlit("windows");
    reveal_strlit("linux");
    assert("macos"@[0] == 'm');
    assert("windows"@[0] == 'w');
    assert("linux"@[0] == 'l');
}

/// The compilation target is not one of the supported operating-system families.
#[derive(Debug, PartialEq, Eq)]
pub struct UnsupportedPlatformError {
    target_os: String,
}

impl View for UnsupportedPlatformError {
    type V = Seq<char>;

    closed spec fn view(&self) -> Seq<char> {
        self.target_os@
    }
}

impl Clone for UnsupportedPlatformError {
    fn clone(&self) -> (r: Self)
        ensures
            r == *self,
    {
        UnsupportedPlatformError { target_os: self.target_os.clone() }
    }
}

impl UnsupportedPlatformError {
    /// Returns the unsupported target operating system.
    #[must_use]
    pub fn target_os(&self) -> (s: &str)
        ensures
            s@ == self@,
    {
        self.target_os.as_str()
    }

    /// The description of the error.
    pub open spec fn text(self) -> Seq<char> {
        "unsupported operating-system target: "@ + self@
    }

    /// Describes the error.
    pub fn message(&self) -> (s: String)
        ensures
            s@ == self.text(),
    {
        String::from_str("unsupported operating-system target: ").concat(self.target_os.as_str())
    }
}

} // verus!
