//! The platforms that a container can hold a payload for.

use vstd::prelude::*;
use crate::text::str_eq;

verus! {

/// A supported platform: an operating system and a processor architecture.
#[derive(Debug, Clone, Copy, PartialEq, Eq, Hash, Structural)]
pub enum Target {
    // Linux
    LinuxX86_64,
    LinuxAarch64,
    LinuxRiscv64,
    LinuxArmv7,
    LinuxPpc64le,
    LinuxS390x,
    LinuxMips64,
    LinuxI686,
    LinuxLoongarch64,
    // Linux with musl
    LinuxX86_64Musl,
    LinuxAarch64Musl,
    // macOS
    DarwinX86_64,
    DarwinAarch64,
    // Windows
    WindowsX86_64,
    WindowsAarch64,
    WindowsX86,
    // BSD
    FreebsdX86_64,
    FreebsdAarch64,
    NetbsdX86_64,
    OpenbsdX86_64,
    // Mobile
    AndroidAarch64,
    AndroidArmv7,
    AndroidX86_64,
    IosAarch64,
    // WebAssembly
    WasiWasm32,
}

impl Target {
    /// The canonical identifier of this target, as manifests write it.
    pub open spec fn name(self) -> Seq<char> {
        match self {
            Target::LinuxX86_64 => "linux-x86_64"@,
            Target::LinuxAarch64 => "linux-aarch64"@,
            Target::LinuxRiscv64 => "linux-riscv64"@,
            Target::LinuxArmv7 => "linux-armv7"@,
            Target::LinuxPpc64le => "linux-ppc64le"@,
            Target::LinuxS390x => "linux-s390x"@,
            Target::LinuxMips64 => "linux-mips64"@,
            Target::LinuxI686 => "linux-i686"@,
            Target::LinuxLoongarch64 => "linux-loongarch64"@,
            Target::LinuxX86_64Musl => "linux-x86_64-musl"@,
            Target::LinuxAarch64Musl => "linux-aarch64-musl"@,
            Target::DarwinX86_64 => "darwin-x86_64"@,
            Target::DarwinAarch64 => "darwin-aarch64"@,
            Target::WindowsX86_64 => "windows-x86_64"@,
            Target::WindowsAarch64 => "windows-aarch64"@,
            Target::WindowsX86 => "windows-x86"@,
            Target::FreebsdX86_64 => "freebsd-x86_64"@,
            Target::FreebsdAarch64 => "freebsd-aarch64"@,
            Target::NetbsdX86_64 => "netbsd-x86_64"@,
            Target::OpenbsdX86_64 => "openbsd-x86_64"@,
            Target::AndroidAarch64 => "android-aarch64"@,
            Target::AndroidArmv7 => "android-armv7"@,
            Target::AndroidX86_64 => "android-x86_64"@,
            Target::IosAarch64 => "ios-aarch64"@,
            Target::WasiWasm32 => "wasi-wasm32"@,
        }
    }

    /// The toolchain triple that builds for this target.
    pub open spec fn triple(self) -> Seq<char> {
        match self {
            Target::LinuxX86_64 => "x86_64-unknown-linux-gnu"@,
            Target::LinuxAarch64 => "aarch64-unknown-linux-gnu"@,
            Target::LinuxRiscv64 => "riscv64gc-unknown-linux-gnu"@,
            Target::LinuxArmv7 => "armv7-unknown-linux-gnueabihf"@,
            Target::LinuxPpc64le => "powerpc64le-unknown-linux-gnu"@,
            Target::LinuxS390x => "s390x-unknown-linux-gnu"@,
            Target::LinuxMips64 => "mips64-unknown-linux-gnuabi64"@,
            Target::LinuxI686 => "i686-unknown-linux-gnu"@,
            Target::LinuxLoongarch64 => "loongarch64-unknown-linux-gnu"@,
            Target::LinuxX86_64Musl => "x86_64-unknown-linux-musl"@,
            Target::LinuxAarch64Musl => "aarch64-unknown-linux-musl"@,
            Target::DarwinX86_64 => "x86_64-apple-darwin"@,
            Target::DarwinAarch64 => "aarch64-apple-darwin"@,
            Target::WindowsX86_64 => "x86_64-pc-windows-msvc"@,
            Target::WindowsAarch64 => "aarch64-pc-windows-msvc"@,
            Target::WindowsX86 => "i686-pc-windows-msvc"@,
            Target::FreebsdX86_64 => "x86_64-unknown-freebsd"@,
            Target::FreebsdAarch64 => "aarch64-unknown-freebsd"@,
            Target::NetbsdX86_64 => "x86_64-unknown-netbsd"@,
            Target::OpenbsdX86_64 => "x86_64-unknown-openbsd"@,
            Target::AndroidAarch64 => "aarch64-linux-android"@,
            Target::AndroidArmv7 => "armv7-linux-androideabi"@,
            Target::AndroidX86_64 => "x86_64-linux-android"@,
            Target::IosAarch64 => "aarch64-apple-ios"@,
            Target::WasiWasm32 => "wasm32-wasip1"@,
        }
    }

    /// The target whose canonical identifier is `name`, if there is one.
    pub open spec fn named(name: Seq<char>) -> Option<Target> {
        if name == "linux-x86_64"@ {
            Some(Target::LinuxX86_64)
        } else if name == "linux-aarch64"@ {
            Some(Target::LinuxAarch64)
        } else if name == "linux-riscv64"@ {
            Some(Target::LinuxRiscv64)
        } else if name == "linux-armv7"@ {
            Some(Target::LinuxArmv7)
        } else if name == "linux-ppc64le"@ {
            Some(Target::LinuxPpc64le)
        } else if name == "linux-s390x"@ {
            Some(Target::LinuxS390x)
        } else if name == "linux-mips64"@ {
            Some(Target::LinuxMips64)
        } else if name == "linux-i686"@ {
            Some(Target::LinuxI686)
        } else if name == "linux-loongarch64"@ {
            Some(Target::LinuxLoongarch64)
        } else if name == "linux-x86_64-musl"@ {
            Some(Target::LinuxX86_64Musl)
        } else if name == "linux-aarch64-musl"@ {
            Some(Target::LinuxAarch64Musl)
        } else if name == "darwin-x86_64"@ {
            Some(Target::DarwinX86_64)
        } else if name == "darwin-aarch64"@ {
            Some(Target::DarwinAarch64)
        } else if name == "windows-x86_64"@ {
            Some(Target::WindowsX86_64)
        } else if name == "windows-aarch64"@ {
            Some(Target::WindowsAarch64)
        } else if name == "windows-x86"@ {
            Some(Target::WindowsX86)
        } else if name == "freebsd-x86_64"@ {
            Some(Target::FreebsdX86_64)
        } else if name == "freebsd-aarch64"@ {
            Some(Target::FreebsdAarch64)
        } else if name == "netbsd-x86_64"@ {
            Some(Target::NetbsdX86_64)
        } else if name == "openbsd-x86_64"@ {
            Some(Target::OpenbsdX86_64)
        } else if name == "android-aarch64"@ {
            Some(Target::AndroidAarch64)
        } else if name == "android-armv7"@ {
            Some(Target::AndroidArmv7)
        } else if name == "android-x86_64"@ {
            Some(Target::AndroidX86_64)
        } else if name == "ios-aarch64"@ {
            Some(Target::IosAarch64)
        } else if name == "wasi-wasm32"@ {
            Some(Target::WasiWasm32)
        } else {
            None
        }
    }

    /// The target of a host that reports the operating system `os` and the
    /// architecture `arch`, in the words of `std::env::consts`, if the host is
    /// a supported one. The two do not tell which C library a Linux host
    /// has, so that no host is taken for a musl target.
    pub open spec fn of_host(os: Seq<char>, arch: Seq<char>) -> Option<Target> {
        if os == "linux"@ {
            if arch == "x86_64"@ {
                Some(Target::LinuxX86_64)
            } else if arch == "aarch64"@ {
                Some(Target::LinuxAarch64)
            } else if arch == "riscv64"@ {
                Some(Target::LinuxRiscv64)
            } else if arch == "arm"@ {
                Some(Target::LinuxArmv7)
            } else if arch == "powerpc64"@ {
                Some(Target::LinuxPpc64le)
            } else if arch == "s390x"@ {
                Some(Target::LinuxS390x)
            } else if arch == "mips64"@ {
                Some(Target::LinuxMips64)
            } else if arch == "x86"@ {
                Some(Target::LinuxI686)
            } else if arch == "loongarch64"@ {
                Some(Target::LinuxLoongarch64)
            } else {
                None
            }
        } else if os == "macos"@ {
            if arch == "x86_64"@ {
                Some(Target::DarwinX86_64)
            } else if arch == "aarch64"@ {
                Some(Target::DarwinAarch64)
            } else {
                None
            }
        } else if os == "windows"@ {
            if arch == "x86_64"@ {
                Some(Target::WindowsX86_64)
            } else if arch == "aarch64"@ {
                Some(Target::WindowsAarch64)
            } else if arch == "x86"@ {
                Some(Target::WindowsX86)
            } else {
                None
            }
        } else if os == "freebsd"@ {
            if arch == "x86_64"@ {
                Some(Target::FreebsdX86_64)
            } else if arch == "aarch64"@ {
                Some(Target::FreebsdAarch64)
            } else {
                None
            }
        } else if os == "netbsd"@ {
            if arch == "x86_64"@ {
                Some(Target::NetbsdX86_64)
            } else {
                None
            }
        } else if os == "openbsd"@ {
            if arch == "x86_64"@ {
                Some(Target::OpenbsdX86_64)
            } else {
                None
            }
        } else if os == "android"@ {
            if arch == "aarch64"@ {
                Some(Target::AndroidAarch64)
            } else if arch == "arm"@ {
                Some(Target::AndroidArmv7)
            } else if arch == "x86_64"@ {
                Some(Target::AndroidX86_64)
            } else {
                None
            }
        } else if os == "ios"@ {
            if arch == "aarch64"@ {
                Some(Target::IosAarch64)
            } else {
                None
            }
        } else if os == "wasi"@ {
            Some(Target::WasiWasm32)
        } else {
            None
        }
    }

    /// Every supported target, in the order of their declaration.
    pub open spec fn all_targets() -> Seq<Target> {
        seq![
            Target::LinuxX86_64,
            Target::LinuxAarch64,
            Target::LinuxRiscv64,
            Target::LinuxArmv7,
            Target::LinuxPpc64le,
            Target::LinuxS390x,
            Target::LinuxMips64,
            Target::LinuxI686,
            Target::LinuxLoongarch64,
            Target::LinuxX86_64Musl,
            Target::LinuxAarch64Musl,
            Target::DarwinX86_64,
            Target::DarwinAarch64,
            Target::WindowsX86_64,
            Target::WindowsAarch64,
            Target::WindowsX86,
            Target::FreebsdX86_64,
            Target::FreebsdAarch64,
            Target::NetbsdX86_64,
            Target::OpenbsdX86_64,
            Target::AndroidAarch64,
            Target::AndroidArmv7,
            Target::AndroidX86_64,
            Target::IosAarch64,
            Target::WasiWasm32,
        ]
    }

    /// Finds the target of the running host from what it reports as its
    /// operating system and architecture.
    pub fn detect_current(os: &str, arch: &str) -> (r: Option<Self>)
        ensures
            r == Target::of_host(os@, arch@),
    {
        if str_eq(os, "linux") {
            if str_eq(arch, "x86_64") {
                Some(Target::LinuxX86_64)
            } else if str_eq(arch, "aarch64") {
                Some(Target::LinuxAarch64)
            } else if str_eq(arch, "riscv64") {
                Some(Target::LinuxRiscv64)
            } else if str_eq(arch, "arm") {
                Some(Target::LinuxArmv7)
            } else if str_eq(arch, "powerpc64") {
                Some(Target::LinuxPpc64le)
            } else if str_eq(arch, "s390x") {
                Some(Target::LinuxS390x)
            } else if str_eq(arch, "mips64") {
                Some(Target::LinuxMips64)
            } else if str_eq(arch, "x86") {
                Some(Target::LinuxI686)
            } else if str_eq(arch, "loongarch64") {
                Some(Target::LinuxLoongarch64)
            } else {
                None
            }
        } else if str_eq(os, "macos") {
            if str_eq(arch, "x86_64") {
                Some(Target::DarwinX86_64)
            } else if str_eq(arch, "aarch64") {
                Some(Target::DarwinAarch64)
            } else {
                None
            }
        } else if str_eq(os, "windows") {
            if str_eq(arch, "x86_64") {
                Some(Target::WindowsX86_64)
            } else if str_eq(arch, "aarch64") {
                Some(Target::WindowsAarch64)
            } else if str_eq(arch, "x86") {
                Some(Target::WindowsX86)
            } else {
                None
            }
        } else if str_eq(os, "freebsd") {
            if str_eq(arch, "x86_64") {
                Some(Target::FreebsdX86_64)
            } else if str_eq(arch, "aarch64") {
                Some(Target::FreebsdAarch64)
            } else {
                None
            }
        } else if str_eq(os, "netbsd") {
            if str_eq(arch, "x86_64") {
                Some(Target::NetbsdX86_64)
            } else {
                None
            }
        } else if str_eq(os, "openbsd") {
            if str_eq(arch, "x86_64") {
                Some(Target::OpenbsdX86_64)
            } else {
                None
            }
        } else if str_eq(os, "android") {
            if str_eq(arch, "aarch64") {
                Some(Target::AndroidAarch64)
            } else if str_eq(arch, "arm") {
                Some(Target::AndroidArmv7)
            } else if str_eq(arch, "x86_64") {
                Some(Target::AndroidX86_64)
            } else {
                None
            }
        } else if str_eq(os, "ios") {
            if str_eq(arch, "aarch64") {
                Some(Target::IosAarch64)
            } else {
                None
            }
        } else if str_eq(os, "wasi") {
            Some(Target::WasiWasm32)
        } else {
            None
        }
    }

    /// The canonical identifier of this target.
    pub fn as_str(&self) -> (s: &'static str)
        ensures
            s@ == self.name(),
    {
        match self {
            Target::LinuxX86_64 => "linux-x86_64",
            Target::LinuxAarch64 => "linux-aarch64",
            Target::LinuxRiscv64 => "linux-riscv64",
            Target::LinuxArmv7 => "linux-armv7",
            Target::LinuxPpc64le => "linux-ppc64le",
            Target::LinuxS390x => "linux-s390x",
            Target::LinuxMips64 => "linux-mips64",
            Target::LinuxI686 => "linux-i686",
            Target::LinuxLoongarch64 => "linux-loongarch64",
            Target::LinuxX86_64Musl => "linux-x86_64-musl",
            Target::LinuxAarch64Musl => "linux-aarch64-musl",
            Target::DarwinX86_64 => "darwin-x86_64",
            Target::DarwinAarch64 => "darwin-aarch64",
            Target::WindowsX86_64 => "windows-x86_64",
            Target::WindowsAarch64 => "windows-aarch64",
            Target::WindowsX86 => "windows-x86",
            Target::FreebsdX86_64 => "freebsd-x86_64",
            Target::FreebsdAarch64 => "freebsd-aarch64",
            Target::NetbsdX86_64 => "netbsd-x86_64",
            Target::OpenbsdX86_64 => "openbsd-x86_64",
            Target::AndroidAarch64 => "android-aarch64",
            Target::AndroidArmv7 => "android-armv7",
            Target::AndroidX86_64 => "android-x86_64",
            Target::IosAarch64 => "ios-aarch64",
            Target::WasiWasm32 => "wasi-wasm32",
        }
    }

    /// Reads a canonical identifier.
    pub fn from_str(s: &str) -> (r: Option<Self>)
        ensures
            r == Target::named(s@),
    {
        if str_eq(s, "linux-x86_64") {
            Some(Target::LinuxX86_64)
        } else if str_eq(s, "linux-aarch64") {
            Some(Target::LinuxAarch64)
        } else if str_eq(s, "linux-riscv64") {
            Some(Target::LinuxRiscv64)
        } else if str_eq(s, "linux-armv7") {
            Some(Target::LinuxArmv7)
        } else if str_eq(s, "linux-ppc64le") {
            Some(Target::LinuxPpc64le)
        } else if str_eq(s, "linux-s390x") {
            Some(Target::LinuxS390x)
        } else if str_eq(s, "linux-mips64") {
            Some(Target::LinuxMips64)
        } else if str_eq(s, "linux-i686") {
            Some(Target::LinuxI686)
        } else if str_eq(s, "linux-loongarch64") {
            Some(Target::LinuxLoongarch64)
        } else if str_eq(s, "linux-x86_64-musl") {
            Some(Target::LinuxX86_64Musl)
        } else if str_eq(s, "linux-aarch64-musl") {
            Some(Target::LinuxAarch64Musl)
        } else if str_eq(s, "darwin-x86_64") {
            Some(Target::DarwinX86_64)
        } else if str_eq(s, "darwin-aarch64") {
            Some(Target::DarwinAarch64)
        } else if str_eq(s, "windows-x86_64") {
            Some(Target::WindowsX86_64)
        } else if str_eq(s, "windows-aarch64") {
            Some(Target::WindowsAarch64)
        } else if str_eq(s, "windows-x86") {
            Some(Target::WindowsX86)
        } else if str_eq(s, "freebsd-x86_64") {
            Some(Target::FreebsdX86_64)
        } else if str_eq(s, "freebsd-aarch64") {
            Some(Target::FreebsdAarch64)
        } else if str_eq(s, "netbsd-x86_64") {
            Some(Target::NetbsdX86_64)
        } else if str_eq(s, "openbsd-x86_64") {
            Some(Target::OpenbsdX86_64)
        } else if str_eq(s, "android-aarch64") {
            Some(Target::AndroidAarch64)
        } else if str_eq(s, "android-armv7") {
            Some(Target::AndroidArmv7)
        } else if str_eq(s, "android-x86_64") {
            Some(Target::AndroidX86_64)
        } else if str_eq(s, "ios-aarch64") {
            Some(Target::IosAarch64)
        } else if str_eq(s, "wasi-wasm32") {
            Some(Target::WasiWasm32)
        } else {
            None
        }
    }

    /// The toolchain triple that builds for this target.
    pub fn rust_triple(&self) -> (s: &'static str)
        ensures
            s@ == self.triple(),
    {
        match self {
            Target::LinuxX86_64 => "x86_64-unknown-linux-gnu",
            Target::LinuxAarch64 => "aarch64-unknown-linux-gnu",
            Target::LinuxRiscv64 => "riscv64gc-unknown-linux-gnu",
            Target::LinuxArmv7 => "armv7-unknown-linux-gnueabihf",
            Target::LinuxPpc64le => "powerpc64le-unknown-linux-gnu",
            Target::LinuxS390x => "s390x-unknown-linux-gnu",
            Target::LinuxMips64 => "mips64-unknown-linux-gnuabi64",
            Target::LinuxI686 => "i686-unknown-linux-gnu",
            Target::LinuxLoongarch64 => "loongarch64-unknown-linux-gnu",
            Target::LinuxX86_64Musl => "x86_64-unknown-linux-musl",
            Target::LinuxAarch64Musl => "aarch64-unknown-linux-musl",
            Target::DarwinX86_64 => "x86_64-apple-darwin",
            Target::DarwinAarch64 => "aarch64-apple-darwin",
            Target::WindowsX86_64 => "x86_64-pc-windows-msvc",
            Target::WindowsAarch64 => "aarch64-pc-windows-msvc",
            Target::WindowsX86 => "i686-pc-windows-msvc",
            Target::FreebsdX86_64 => "x86_64-unknown-freebsd",
            Target::FreebsdAarch64 => "aarch64-unknown-freebsd",
            Target::NetbsdX86_64 => "x86_64-unknown-netbsd",
            Target::OpenbsdX86_64 => "x86_64-unknown-openbsd",
            Target::AndroidAarch64 => "aarch64-linux-android",
            Target::AndroidArmv7 => "armv7-linux-androideabi",
            Target::AndroidX86_64 => "x86_64-linux-android",
            Target::IosAarch64 => "aarch64-apple-ios",
            Target::WasiWasm32 => "wasm32-wasip1",
        }
    }

    /// Every supported target.
    pub fn all() -> (v: Vec<Target>)
        ensures
            v@ == Target::all_targets(),
    {
        let mut v: Vec<Target> = Vec::new();
        v.push(Target::LinuxX86_64);
        v.push(Target::LinuxAarch64);
        v.push(Target::LinuxRiscv64);
        v.push(Target::LinuxArmv7);
        v.push(Target::LinuxPpc64le);
        v.push(Target::LinuxS390x);
        v.push(Target::LinuxMips64);
        v.push(Target::LinuxI686);
        v.push(Target::LinuxLoongarch64);
        v.push(Target::LinuxX86_64Musl);
        v.push(Target::LinuxAarch64Musl);
        v.push(Target::DarwinX86_64);
        v.push(Target::DarwinAarch64);
        v.push(Target::WindowsX86_64);
        v.push(Target::WindowsAarch64);
        v.push(Target::WindowsX86);
        v.push(Target::FreebsdX86_64);
        v.push(Target::FreebsdAarch64);
        v.push(Target::NetbsdX86_64);
        v.push(Target::OpenbsdX86_64);
        v.push(Target::AndroidAarch64);
        v.push(Target::AndroidArmv7);
        v.push(Target::AndroidX86_64);
        v.push(Target::IosAarch64);
        v.push(Target::WasiWasm32);
        assert(v@ =~= Target::all_targets());
        v
    }
}

/// The length of a name and its characters at a few fixed places.
spec fn marks(s: Seq<char>) -> (nat, char, char, char, char, char) {
    (s.len(), s[0], s[6], s[7], s[8], s[9])
}

spec fn marks_of(t: Target) -> (nat, char, char, char, char, char) {
    match t {
        Target::LinuxX86_64 => (12, 'l', 'x', '8', '6', '_'),
        Target::LinuxAarch64 => (13, 'l', 'a', 'a', 'r', 'c'),
        Target::LinuxRiscv64 => (13, 'l', 'r', 'i', 's', 'c'),
        Target::LinuxArmv7 => (11, 'l', 'a', 'r', 'm', 'v'),
        Target::LinuxPpc64le => (13, 'l', 'p', 'p', 'c', '6'),
        Target::LinuxS390x => (11, 'l', 's', '3', '9', '0'),
        Target::LinuxMips64 => (12, 'l', 'm', 'i', 'p', 's'),
        Target::LinuxI686 => (10, 'l', 'i', '6', '8', '6'),
        Target::LinuxLoongarch64 => (17, 'l', 'l', 'o', 'o', 'n'),
        Target::LinuxX86_64Musl => (17, 'l', 'x', '8', '6', '_'),
        Target::LinuxAarch64Musl => (18, 'l', 'a', 'a', 'r', 'c'),
        Target::DarwinX86_64 => (13, 'd', '-', 'x', '8', '6'),
        Target::DarwinAarch64 => (14, 'd', '-', 'a', 'a', 'r'),
        Target::WindowsX86_64 => (14, 'w', 's', '-', 'x', '8'),
        Target::WindowsAarch64 => (15, 'w', 's', '-', 'a', 'a'),
        Target::WindowsX86 => (11, 'w', 's', '-', 'x', '8'),
        Target::FreebsdX86_64 => (14, 'f', 'd', '-', 'x', '8'),
        Target::FreebsdAarch64 => (15, 'f', 'd', '-', 'a', 'a'),
        Target::NetbsdX86_64 => (13, 'n', '-', 'x', '8', '6'),
        Target::OpenbsdX86_64 => (14, 'o', 'd', '-', 'x', '8'),
        Target::AndroidAarch64 => (15, 'a', 'd', '-', 'a', 'a'),
        Target::AndroidArmv7 => (13, 'a', 'd', '-', 'a', 'r'),
        Target::AndroidX86_64 => (14, 'a', 'd', '-', 'x', '8'),
        Target::IosAarch64 => (11, 'i', 'r', 'c', 'h', '6'),
        Target::WasiWasm32 => (11, 'w', 'a', 's', 'm', '3'),
    }
}

proof fn lemma_marks(t: Target)
    ensures
        marks(t.name()) == marks_of(t),
{
    match t {
        Target::LinuxX86_64 => {
            reveal_strlit("linux-x86_64");
        },
        Target::LinuxAarch64 => {
            reveal_strlit("linux-aarch64");
        },
        Target::LinuxRiscv64 => {
            reveal_strlit("linux-riscv64");
        },
        Target::LinuxArmv7 => {
            reveal_strlit("linux-armv7");
        },
        Target::LinuxPpc64le => {
            reveal_strlit("linux-ppc64le");
        },
        Target::LinuxS390x => {
            reveal_strlit("linux-s390x");
        },
        Target::LinuxMips64 => {
            reveal_strlit("linux-mips64");
        },
        Target::LinuxI686 => {
            reveal_strlit("linux-i686");
        },
        Target::LinuxLoongarch64 => {
            reveal_strlit("linux-loongarch64");
        },
        Target::LinuxX86_64Musl => {
            reveal_strlit("linux-x86_64-musl");
        },
        Target::LinuxAarch64Musl => {
            reveal_strlit("linux-aarch64-musl");
        },
        Target::DarwinX86_64 => {
            reveal_strlit("darwin-x86_64");
        },
        Target::DarwinAarch64 => {
            reveal_strlit("darwin-aarch64");
        },
        Target::WindowsX86_64 => {
            reveal_strlit("windows-x86_64");
        },
        Target::WindowsAarch64 => {
            reveal_strlit("windows-aarch64");
        },
        Target::WindowsX86 => {
            reveal_strlit("windows-x86");
        },
        Target::FreebsdX86_64 => {
            reveal_strlit("freebsd-x86_64");
        },
        Target::FreebsdAarch64 => {
            reveal_strlit("freebsd-aarch64");
        },
        Target::NetbsdX86_64 => {
            reveal_strlit("netbsd-x86_64");
        },
        Target::OpenbsdX86_64 => {
            reveal_strlit("openbsd-x86_64");
        },
        Target::AndroidAarch64 => {
            reveal_strlit("android-aarch64");
        },
        Target::AndroidArmv7 => {
            reveal_strlit("android-armv7");
        },
        Target::AndroidX86_64 => {
            reveal_strlit("android-x86_64");
        },
        Target::IosAarch64 => {
            reveal_strlit("ios-aarch64");
        },
        Target::WasiWasm32 => {
            reveal_strlit("wasi-wasm32");
        },
    }
}

/// No two targets share a canonical identifier.
pub proof fn lemma_target_names_differ(a: Target, b: Target)
    requires
        a.name() == b.name(),
    ensures
        a == b,
{
    lemma_marks(a);
    lemma_marks(b);
}

/// Reading the canonical identifier of a target gives the target back, and a
/// string that reads as a target is that target's canonical identifier.
pub proof fn lemma_target_name_round_trip(t: Target, s: Seq<char>)
    ensures
        Target::named(t.name()) == Some(t),
        Target::named(s) == Some(t) ==> s == t.name(),
        Target::all_targets().contains(t),
{
    match Target::named(t.name()) {
        Some(u) => {
            lemma_target_names_differ(t, u);
        },
        None => {},
    }
    assert(Target::all_targets()[0] == Target::LinuxX86_64);
    assert(Target::all_targets()[1] == Target::LinuxAarch64);
    assert(Target::all_targets()[2] == Target::LinuxRiscv64);
    assert(Target::all_targets()[3] == Target::LinuxArmv7);
    assert(Target::all_targets()[4] == Target::LinuxPpc64le);
    assert(Target::all_targets()[5] == Target::LinuxS390x);
    assert(Target::all_targets()[6] == Target::LinuxMips64);
    assert(Target::all_targets()[7] == Target::LinuxI686);
    assert(Target::all_targets()[8] == Target::LinuxLoongarch64);
    assert(Target::all_targets()[9] == Target::LinuxX86_64Musl);
    assert(Target::all_targets()[10] == Target::LinuxAarch64Musl);
    assert(Target::all_targets()[11] == Target::DarwinX86_64);
    assert(Target::all_targets()[12] == Target::DarwinAarch64);
    assert(Target::all_targets()[13] == Target::WindowsX86_64);
    assert(Target::all_targets()[14] == Target::WindowsAarch64);
    assert(Target::all_targets()[15] == Target::WindowsX86);
    assert(Target::all_targets()[16] == Target::FreebsdX86_64);
    assert(Target::all_targets()[17] == Target::FreebsdAarch64);
    assert(Target::all_targets()[18] == Target::NetbsdX86_64);
    assert(Target::all_targets()[19] == Target::OpenbsdX86_64);
    assert(Target::all_targets()[20] == Target::AndroidAarch64);
    assert(Target::all_targets()[21] == Target::AndroidArmv7);
    assert(Target::all_targets()[22] == Target::AndroidX86_64);
    assert(Target::all_targets()[23] == Target::IosAarch64);
    assert(Target::all_targets()[24] == Target::WasiWasm32);
}

} // verus!
