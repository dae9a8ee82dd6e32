//! The launcher that a container starts with.

use vstd::prelude::*;
use vstd::string::StringSliceAdditionalSpecFns;
use crate::header::PAYLOAD_MARKER;
use crate::text::occurs_at;

verus! {

/// The launcher: a text that a POSIX shell and the Windows command
/// interpreter both run. Each finds the payload marker at the end of the
/// launcher and hands what follows it to the unpacker for the host.
pub const STUB_TEMPLATE: &'static str =
    ":<<\"::CMDLITERAL\"\r\n@ECHO OFF\r\nSETLOCAL\r\nSET \"PBIN_SELF=%~f0\"\r\nIF \"%PROCESSOR_ARCHITECTURE%\"==\"ARM64\" (SET \"PBIN_TARGET=windows-aarch64\") ELSE (SET \"PBIN_TARGET=windows-x86_64\")\r\npbin-run \"%PBIN_SELF%\" \"%PBIN_TARGET%\" %*\r\nEXIT /B %ERRORLEVEL%\r\n::CMDLITERAL\nset -eu\nPBIN_SELF=\"$0\"\ncase \"$(uname -s)\" in\n  Linux) PBIN_OS=linux ;;\n  Darwin) PBIN_OS=darwin ;;\n  *) echo \"pbin: unsupported system\" >&2; exit 1 ;;\nesac\ncase \"$(uname -m)\" in\n  x86_64|amd64) PBIN_ARCH=x86_64 ;;\n  aarch64|arm64) PBIN_ARCH=aarch64 ;;\n  riscv64) PBIN_ARCH=riscv64 ;;\n  *) echo \"pbin: unsupported machine\" >&2; exit 1 ;;\nesac\nexec pbin-run \"$PBIN_SELF\" \"$PBIN_OS-$PBIN_ARCH\" \"$@\"\nexit 1\n__PBIN_PAYLOAD__";

/// Hands out the launcher.
pub struct StubGenerator;

impl StubGenerator {
    /// The launcher as bytes. It ends with the payload marker.
    pub fn generate() -> (stub: Vec<u8>)
        ensures
            stub@ == STUB_TEMPLATE.spec_bytes(),
    {
        vstd::slice::slice_to_vec(STUB_TEMPLATE.as_bytes())
    }

    /// The length of the launcher in bytes.
    pub fn stub_size() -> (size: usize)
        ensures
            size == STUB_TEMPLATE.spec_bytes().len(),
    {
        STUB_TEMPLATE.as_bytes().len()
    }
}

/// The launcher starts with `:<<`, which a shell reads as the start of a
/// here-document and the command interpreter as a label, it is shorter than
/// 4 KiB, and it ends with the payload marker.
pub proof fn lemma_stub_shape()
    ensures
        16 <= STUB_TEMPLATE.spec_bytes().len() < 4096,
        STUB_TEMPLATE.spec_bytes().subrange(0, 3) == seq![0x3Au8, 0x3Cu8, 0x3Cu8],
        occurs_at(
            STUB_TEMPLATE.spec_bytes(),
            PAYLOAD_MARKER@,
            STUB_TEMPLATE.spec_bytes().len() - 16,
        ),
{
    reveal_strlit(
        ":<<\"::CMDLITERAL\"\r\n@ECHO OFF\r\nSETLOCAL\r\nSET \"PBIN_SELF=%~f0\"\r\nIF \"%PROCESSOR_ARCHITECTURE%\"==\"ARM64\" (SET \"PBIN_TARGET=windows-aarch64\") ELSE (SET \"PBIN_TARGET=windows-x86_64\")\r\npbin-run \"%PBIN_SELF%\" \"%PBIN_TARGET%\" %*\r\nEXIT /B %ERRORLEVEL%\r\n::CMDLITERAL\nset -eu\nPBIN_SELF=\"$0\"\ncase \"$(uname -s)\" in\n  Linux) PBIN_OS=linux ;;\n  Darwin) PBIN_OS=darwin ;;\n  *) echo \"pbin: unsupported system\" >&2; exit 1 ;;\nesac\ncase \"$(uname -m)\" in\n  x86_64|amd64) PBIN_ARCH=x86_64 ;;\n  aarch64|arm64) PBIN_ARCH=aarch64 ;;\n  riscv64) PBIN_ARCH=riscv64 ;;\n  *) echo \"pbin: unsupported machine\" >&2; exit 1 ;;\nesac\nexec pbin-run \"$PBIN_SELF\" \"$PBIN_OS-$PBIN_ARCH\" \"$@\"\nexit 1\n__PBIN_PAYLOAD__",
    );
    let chars = STUB_TEMPLATE@;
    assert(vstd::utf8::is_ascii_chars(chars));
    vstd::utf8::is_ascii_chars_encode_utf8(chars);
    let bytes = STUB_TEMPLATE.spec_bytes();
    let n = bytes.len() as int;
    assert(bytes.subrange(n - 16, n) =~= PAYLOAD_MARKER@);
    assert(bytes.subrange(0, 3) =~= seq![0x3Au8, 0x3Cu8, 0x3Cu8]);
}

} // verus!
