//! Operating systems and processor architectures that installers are built
//! for.

use vstd::prelude::*;
use vstd::string::StringExecFns;

verus! {

/// An operating system.
#[derive(Clone, Copy, Debug, PartialEq, Eq, Structural)]
pub enum OS {
    Windows,
    Mac,
    Linux,
}

/// A processor architecture.
#[derive(Clone, Copy, Debug, PartialEq, Eq, Structural)]
pub enum Arch {
    X86_64,
    X86,
    AArch64,
    Arm,
}

/// The lower-case form of a text, as `str::to_lowercase` of the standard
/// library gives it.
pub uninterp spec fn lowercase(s: Seq<char>) -> Seq<char>;

/// `str::to_lowercase` of the standard library. Nothing is proved of it: the
/// result is the lower-case form of the text.
#[verifier::external_body]
fn to_lowercase(s: &str) -> (r: String)
    ensures
        r@ == lowercase(s@),
{
    s.to_lowercase()
}

/// Whether `text` is the text of `literal`.
fn is_text(text: &String, literal: &str) -> (r: bool)
    ensures
        r == (text@ == literal@),
{
    let other = String::from_str(literal);
    *text == other
}

impl OS {
    /// The operating system with the lower-case name `name`.
    pub open spec fn named(name: Seq<char>) -> Option<OS> {
        if name == "windows"@ {
            Some(OS::Windows)
        } else if name == "macos"@ {
            Some(OS::Mac)
        } else if name == "linux"@ {
            Some(OS::Linux)
        } else {
            None
        }
    }

    /// The name under which the operating system is shown.
    pub open spec fn name_spec(self) -> Seq<char> {
        match self {
            OS::Windows => "Windows"@,
            OS::Mac => "Mac"@,
            OS::Linux => "Linux"@,
        }
    }

    /// The operating system that `value` names: `windows`, `macos` or
    /// `linux`, in any mix of upper and lower case.
    pub fn from_name(value: &str) -> (r: Option<OS>)
        ensures
            r == OS::named(lowercase(value@)),
    {
        let lower = to_lowercase(value);
        if is_text(&lower, "windows") {
            Some(OS::Windows)
        } else if is_text(&lower, "macos") {
            Some(OS::Mac)
        } else if is_text(&lower, "linux") {
            Some(OS::Linux)
        } else {
            None
        }
    }

    /// The name under which the operating system is shown.
    pub fn to_string(&self) -> (s: String)
        ensures
            s@ == self.name_spec(),
    {
        match self {
            OS::Windows => String::from_str("Windows"),
            OS::Mac => String::from_str("Mac"),
            OS::Linux => String::from_str("Linux"),
        }
    }
}

impl Arch {
    /// The architecture with the lower-case name `name`.
    pub open spec fn named(name: Seq<char>) -> Option<Arch> {
        if name == "x86_64"@ {
            Some(Arch::X86_64)
        } else if name == "x86"@ {
            Some(Arch::X86)
        } else if name == "aarch64"@ {
            Some(Arch::AArch64)
        } else if name == "arm"@ {
            Some(Arch::Arm)
        } else {
            None
        }
    }

    /// The name under which the architecture is shown.
    pub open spec fn name_spec(self) -> Seq<char> {
        match self {
            Arch::X86_64 => "x86_64"@,
            Arch::X86 => "x86"@,
            Arch::AArch64 => "aarch64"@,
            Arch::Arm => "arm"@,
        }
    }

    /// The architecture that `value` names: `x86_64`, `x86`, `aarch64` or
    /// `arm`, in any mix of upper and lower case.
    pub fn from_name(value: &str) -> (r: Option<Arch>)
        ensures
            r == Arch::named(lowercase(value@)),
    {
        let lower = to_lowercase(value);
        if is_text(&lower, "x86_64") {
            Some(Arch::X86_64)
        } else if is_text(&lower, "x86") {
            Some(Arch::X86)
        } else if is_text(&lower, "aarch64") {
            Some(Arch::AArch64)
        } else if is_text(&lower, "arm") {
            Some(Arch::Arm)
        } else {
            None
        }
    }

    /// The name under which the architecture is shown.
    pub fn to_string(&self) -> (s: String)
        ensures
            s@ == self.name_spec(),
    {
        match self {
            Arch::X86_64 => String::from_str("x86_64"),
            Arch::X86 => String::from_str("x86"),
            Arch::AArch64 => String::from_str("aarch64"),
            Arch::Arm => String::from_str("arm"),
        }
    }
}

} // verus!
